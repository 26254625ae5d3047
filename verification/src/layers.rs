//! The three configuration layers and their merge: environment variables,
//! then the members of a file, then trailing command-line pairs. A later
//! layer overrides an earlier one key by key.

use crate::config::ConfigMap;
use crate::text::{
    chars_of, collapse_double_underscores, collapse_underscores, has_prefix, lower_ascii,
    replace_char, replace_each, starts_with, string_of, strip_leading, tail_from, to_lower_ascii,
    trim_leading,
};
use crate::value::{coerce, coerced_token, member_views, ConfigValue, ValueView};
use vstd::prelude::*;
use vstd::string::*;

verus! {

/// What the first `n` of the updates `ups` make of `base`, applied in order:
/// an update maps its key to its value, `None` changes nothing.
pub open spec fn applied(
    base: Map<Seq<char>, ValueView>,
    ups: Seq<Option<(Seq<char>, ValueView)>>,
    n: int,
) -> Map<Seq<char>, ValueView>
    decreases n,
{
    if n <= 0 {
        base
    } else {
        let before = applied(base, ups, n - 1);
        match ups[n - 1] {
            Some(u) => before.insert(u.0, u.1),
            None => before,
        }
    }
}

/// What all the updates `ups` make of `base`.
pub open spec fn apply_all(
    base: Map<Seq<char>, ValueView>,
    ups: Seq<Option<(Seq<char>, ValueView)>>,
) -> Map<Seq<char>, ValueView> {
    applied(base, ups, ups.len() as int)
}

/// The prefix that marks the environment variables of a record: the
/// record's prefix and an underscore.
pub open spec fn env_prefix(struct_prefix: Seq<char>) -> Seq<char> {
    struct_prefix + seq!['_']
}

/// The field that the environment variable `name` sets, if it has the
/// record's prefix: what follows the prefix, in lower case, with doubled
/// underscores collapsed.
pub open spec fn env_field(name: Seq<char>, struct_prefix: Seq<char>) -> Option<Seq<char>> {
    if has_prefix(name, env_prefix(struct_prefix)) {
        Some(collapse_underscores(lower_ascii(name.skip(env_prefix(struct_prefix).len() as int))))
    } else {
        None
    }
}

/// The field that a trailing flag sets: the flag without its leading
/// dashes, each other dash as an underscore, in lower case.
pub open spec fn trailing_field(flag: Seq<char>) -> Seq<char> {
    lower_ascii(replace_each(strip_leading(flag, '-'), '-', '_'))
}

/// The updates of the environment layer: each variable with the record's
/// prefix sets its field to its value, as a string.
pub open spec fn env_updates(
    struct_prefix: Seq<char>,
    vars: Seq<(Seq<char>, Seq<char>)>,
) -> Seq<Option<(Seq<char>, ValueView)>> {
    Seq::new(
        vars.len(),
        |i: int|
            match env_field(vars[i].0, struct_prefix) {
                Some(field) => Some((field, ValueView::Text(vars[i].1))),
                None => None,
            },
    )
}

/// The updates of the file layer: each member sets its key to its value.
pub open spec fn file_updates(members: Seq<(Seq<char>, ValueView)>) -> Seq<
    Option<(Seq<char>, ValueView)>,
> {
    Seq::new(members.len(), |i: int| Some(members[i]))
}

/// The updates of the trailing layer: the tokens are taken two by two, a
/// flag and its value; a last token without a partner is dropped.
pub open spec fn trailing_updates(pairs: Seq<Seq<char>>) -> Seq<Option<(Seq<char>, ValueView)>> {
    Seq::new(
        pairs.len() / 2,
        |i: int| Some((trailing_field(pairs[2 * i]), coerced_token(pairs[2 * i + 1]))),
    )
}

/// The merged mapping of the three layers, over an empty mapping.
pub open spec fn merged(
    struct_prefix: Seq<char>,
    vars: Seq<(Seq<char>, Seq<char>)>,
    members: Seq<(Seq<char>, ValueView)>,
    pairs: Seq<Seq<char>>,
) -> Map<Seq<char>, ValueView> {
    apply_all(
        apply_all(
            apply_all(Map::empty(), env_updates(struct_prefix, vars)),
            file_updates(members),
        ),
        trailing_updates(pairs),
    )
}

/// The upper-snake-case form of a name, as the `heck` crate computes it:
/// the words of the name in capitals, joined by underscores.
pub uninterp spec fn shouty_snake_case(name: Seq<char>) -> Seq<char>;

/// Calls `heck::ToShoutySnakeCase::to_shouty_snake_case` on `name`. The
/// result is a function of the name alone; the contract names it and says
/// no more.
#[verifier::external_body]
fn to_shouty_snake_case(name: &str) -> (r: String)
    ensures
        r@ == shouty_snake_case(name@),
{
    heck::ToShoutySnakeCase::to_shouty_snake_case(name)
}

/// The prefix of the record that the struct `struct_name` describes: its
/// name in upper-snake case. The record's environment variables are those
/// that begin with this prefix and an underscore.
pub fn struct_prefix(struct_name: &str) -> (r: String)
    ensures
        r@ == shouty_snake_case(struct_name@),
{
    to_shouty_snake_case(struct_name)
}

/// The field that the environment variable `name` sets for the record with
/// prefix `struct_prefix`, or `None` where the variable is not the record's.
pub fn env_field_name(name: &str, struct_prefix: &str) -> (r: Option<String>)
    ensures
        match r {
            Some(field) => env_field(name@, struct_prefix@) == Some(field@),
            None => env_field(name@, struct_prefix@) is None,
        },
{
    let mut prefix = chars_of(struct_prefix);
    prefix.push('_');
    proof {
        assert(prefix@ =~= env_prefix(struct_prefix@));
    }
    let chars = chars_of(name);
    if starts_with(&chars, &prefix) {
        let suffix = tail_from(&chars, prefix.len());
        let lowered = to_lower_ascii(&suffix);
        let field = collapse_double_underscores(&lowered);
        Some(string_of(&field))
    } else {
        None
    }
}

/// The field that the trailing flag `flag` sets.
pub fn trailing_field_name(flag: &str) -> (r: String)
    ensures
        r@ == trailing_field(flag@),
{
    let chars = chars_of(flag);
    let bare = trim_leading(&chars, '-');
    let snake = replace_char(&bare, '-', '_');
    let lowered = to_lower_ascii(&snake);
    string_of(&lowered)
}

/// Merges the environment variables `vars` of the record with prefix
/// `struct_prefix` over `map`.
pub fn apply_env(map: &mut ConfigMap, struct_prefix: &str, vars: &Vec<(String, String)>)
    ensures
        final(map)@ == apply_all(old(map)@, env_updates(struct_prefix@, vars.deep_view())),
{
    let ghost ups = env_updates(struct_prefix@, vars.deep_view());
    let ghost base = map@;
    let mut i: usize = 0;
    while i < vars.len()
        invariant
            i <= vars.len(),
            ups == env_updates(struct_prefix@, vars.deep_view()),
            map@ == applied(base, ups, i as int),
        decreases vars.len() - i,
    {
        proof {
            assert(vars.deep_view()[i as int] == (vars@[i as int].0@, vars@[i as int].1@));
        }
        match env_field_name(vars[i].0.as_str(), struct_prefix) {
            Some(field) => {
                map.insert(field, ConfigValue::Text(vars[i].1.clone()));
            },
            None => {},
        }
        i += 1;
    }
}

/// Merges the members of a file's top-level object over `map`.
pub fn apply_members(map: &mut ConfigMap, members: &Vec<(String, ConfigValue)>)
    ensures
        final(map)@ == apply_all(old(map)@, file_updates(member_views(members@))),
{
    let ghost ups = file_updates(member_views(members@));
    let ghost base = map@;
    let mut i: usize = 0;
    while i < members.len()
        invariant
            i <= members.len(),
            ups == file_updates(member_views(members@)),
            map@ == applied(base, ups, i as int),
        decreases members.len() - i,
    {
        map.insert(members[i].0.clone(), members[i].1.duplicate());
        i += 1;
    }
}

/// Merges the trailing command-line pairs over `map`.
pub fn apply_trailing(map: &mut ConfigMap, pairs: &Vec<String>)
    ensures
        final(map)@ == apply_all(old(map)@, trailing_updates(pairs.deep_view())),
{
    let ghost ups = trailing_updates(pairs.deep_view());
    let ghost base = map@;
    let count: usize = pairs.len() / 2;
    let mut i: usize = 0;
    while i < count
        invariant
            i <= count,
            count == pairs.len() / 2,
            ups == trailing_updates(pairs.deep_view()),
            map@ == applied(base, ups, i as int),
        decreases count - i,
    {
        proof {
            assert(pairs.deep_view()[2 * i] == pairs@[2 * i]@);
            assert(pairs.deep_view()[2 * i + 1] == pairs@[2 * i + 1]@);
        }
        let field = trailing_field_name(pairs[2 * i].as_str());
        let value = coerce(pairs[2 * i + 1].as_str());
        map.insert(field, value);
        i += 1;
    }
}

/// Whether the update `u` sets the key `k`.
pub open spec fn sets_key(u: Option<(Seq<char>, ValueView)>, k: Seq<char>) -> bool {
    match u {
        Some(pair) => pair.0 == k,
        None => false,
    }
}

/// The value that the update `u` sets; of no meaning where it sets none.
pub open spec fn value_set(u: Option<(Seq<char>, ValueView)>) -> ValueView {
    match u {
        Some(pair) => pair.1,
        None => ValueView::Null,
    }
}

/// Whether the update at `j` is the last of `ups` that sets `k`.
pub open spec fn last_setting(
    ups: Seq<Option<(Seq<char>, ValueView)>>,
    j: int,
    k: Seq<char>,
) -> bool {
    &&& 0 <= j < ups.len()
    &&& sets_key(ups[j], k)
    &&& forall|i: int| j < i < ups.len() ==> !sets_key(#[trigger] ups[i], k)
}

/// Whether no update of `ups` sets `k`.
pub open spec fn never_set(ups: Seq<Option<(Seq<char>, ValueView)>>, k: Seq<char>) -> bool {
    forall|i: int| 0 <= i < ups.len() ==> !sets_key(#[trigger] ups[i], k)
}

proof fn lemma_applied_untouched(
    base: Map<Seq<char>, ValueView>,
    ups: Seq<Option<(Seq<char>, ValueView)>>,
    n: int,
    m: int,
    k: Seq<char>,
)
    requires
        0 <= m <= n <= ups.len(),
        forall|i: int| m <= i < n ==> !sets_key(#[trigger] ups[i], k),
    ensures
        applied(base, ups, n).contains_key(k) == applied(base, ups, m).contains_key(k),
        applied(base, ups, n).contains_key(k) ==> applied(base, ups, n)[k] == applied(
            base,
            ups,
            m,
        )[k],
    decreases n - m,
{
    if m < n {
        lemma_applied_untouched(base, ups, n - 1, m, k);
        assert(!sets_key(ups[n - 1], k));
    }
}

/// Among updates applied in order, the last one that sets a key decides
/// what the key is mapped to.
pub proof fn lemma_last_update_wins(
    base: Map<Seq<char>, ValueView>,
    ups: Seq<Option<(Seq<char>, ValueView)>>,
    j: int,
    k: Seq<char>,
)
    requires
        last_setting(ups, j, k),
    ensures
        apply_all(base, ups).contains_key(k),
        apply_all(base, ups)[k] == value_set(ups[j]),
{
    assert(applied(base, ups, j + 1).contains_key(k));
    assert(applied(base, ups, j + 1)[k] == value_set(ups[j]));
    lemma_applied_untouched(base, ups, ups.len() as int, j + 1, k);
}

/// A key that no update sets is mapped as it was before.
pub proof fn lemma_untouched_key(
    base: Map<Seq<char>, ValueView>,
    ups: Seq<Option<(Seq<char>, ValueView)>>,
    k: Seq<char>,
)
    requires
        never_set(ups, k),
    ensures
        apply_all(base, ups).contains_key(k) == base.contains_key(k),
        base.contains_key(k) ==> apply_all(base, ups)[k] == base[k],
{
    lemma_applied_untouched(base, ups, ups.len() as int, 0, k);
}

/// The command line wins: a key that a trailing pair sets is mapped to the
/// value of the last such pair, whatever the file and the environment say.
pub proof fn lemma_trailing_wins(
    struct_prefix: Seq<char>,
    vars: Seq<(Seq<char>, Seq<char>)>,
    members: Seq<(Seq<char>, ValueView)>,
    pairs: Seq<Seq<char>>,
    j: int,
    k: Seq<char>,
)
    requires
        last_setting(trailing_updates(pairs), j, k),
    ensures
        merged(struct_prefix, vars, members, pairs).contains_key(k),
        merged(struct_prefix, vars, members, pairs)[k] == coerced_token(pairs[2 * j + 1]),
{
    let below = apply_all(
        apply_all(Map::empty(), env_updates(struct_prefix, vars)),
        file_updates(members),
    );
    lemma_last_update_wins(below, trailing_updates(pairs), j, k);
}

/// The file wins over the environment: a key that no trailing pair sets
/// and that a member of the file sets is mapped to the value of the last
/// such member, as the file holds it, whatever the environment says.
pub proof fn lemma_file_wins_over_env(
    struct_prefix: Seq<char>,
    vars: Seq<(Seq<char>, Seq<char>)>,
    members: Seq<(Seq<char>, ValueView)>,
    pairs: Seq<Seq<char>>,
    j: int,
    k: Seq<char>,
)
    requires
        never_set(trailing_updates(pairs), k),
        last_setting(file_updates(members), j, k),
    ensures
        merged(struct_prefix, vars, members, pairs).contains_key(k),
        merged(struct_prefix, vars, members, pairs)[k] == members[j].1,
{
    let env = apply_all(Map::empty(), env_updates(struct_prefix, vars));
    let below = apply_all(env, file_updates(members));
    lemma_last_update_wins(env, file_updates(members), j, k);
    lemma_untouched_key(below, trailing_updates(pairs), k);
}

/// The environment alone: a key that neither a trailing pair nor the file
/// sets and that an environment variable sets is mapped to the value of the
/// last such variable, as a string.
pub proof fn lemma_env_alone(
    struct_prefix: Seq<char>,
    vars: Seq<(Seq<char>, Seq<char>)>,
    members: Seq<(Seq<char>, ValueView)>,
    pairs: Seq<Seq<char>>,
    j: int,
    k: Seq<char>,
)
    requires
        never_set(trailing_updates(pairs), k),
        never_set(file_updates(members), k),
        last_setting(env_updates(struct_prefix, vars), j, k),
    ensures
        merged(struct_prefix, vars, members, pairs).contains_key(k),
        merged(struct_prefix, vars, members, pairs)[k] == ValueView::Text(vars[j].1),
{
    let env = apply_all(Map::empty(), env_updates(struct_prefix, vars));
    let below = apply_all(env, file_updates(members));
    lemma_last_update_wins(Map::empty(), env_updates(struct_prefix, vars), j, k);
    lemma_untouched_key(env, file_updates(members), k);
    lemma_untouched_key(below, trailing_updates(pairs), k);
}

/// A key that no layer sets is not in the merged mapping.
pub proof fn lemma_unset_key_absent(
    struct_prefix: Seq<char>,
    vars: Seq<(Seq<char>, Seq<char>)>,
    members: Seq<(Seq<char>, ValueView)>,
    pairs: Seq<Seq<char>>,
    k: Seq<char>,
)
    requires
        never_set(trailing_updates(pairs), k),
        never_set(file_updates(members), k),
        never_set(env_updates(struct_prefix, vars), k),
    ensures
        !merged(struct_prefix, vars, members, pairs).contains_key(k),
{
    let env = apply_all(Map::empty(), env_updates(struct_prefix, vars));
    let below = apply_all(env, file_updates(members));
    lemma_untouched_key(Map::empty(), env_updates(struct_prefix, vars), k);
    lemma_untouched_key(env, file_updates(members), k);
    lemma_untouched_key(below, trailing_updates(pairs), k);
}

/// Whether no two variables of `vars` set the same field of the record.
pub open spec fn sets_distinct_fields(
    struct_prefix: Seq<char>,
    vars: Seq<(Seq<char>, Seq<char>)>,
) -> bool {
    forall|i: int, j: int|
        0 <= i < j < vars.len() && env_field(#[trigger] vars[i].0, struct_prefix) is Some
            ==> env_field(vars[i].0, struct_prefix) != env_field(
            #[trigger] vars[j].0,
            struct_prefix,
        )
}

/// Among variables that set distinct fields, each one that sets a field
/// decides it, wherever it stands in the list.
proof fn lemma_env_each_decides(
    struct_prefix: Seq<char>,
    vars: Seq<(Seq<char>, Seq<char>)>,
    j: int,
)
    requires
        sets_distinct_fields(struct_prefix, vars),
        0 <= j < vars.len(),
        env_field(vars[j].0, struct_prefix) is Some,
    ensures
        apply_all(Map::empty(), env_updates(struct_prefix, vars)).contains_key(
            env_field(vars[j].0, struct_prefix)->0,
        ),
        apply_all(Map::empty(), env_updates(struct_prefix, vars))[env_field(
            vars[j].0,
            struct_prefix,
        )->0] == ValueView::Text(vars[j].1),
{
    let ups = env_updates(struct_prefix, vars);
    let k = env_field(vars[j].0, struct_prefix)->0;
    assert forall|i: int| j < i < ups.len() implies !sets_key(#[trigger] ups[i], k) by {
        assert(env_field(vars[j].0, struct_prefix) != env_field(vars[i].0, struct_prefix));
    }
    lemma_last_update_wins(Map::empty(), ups, j, k);
}

/// The order in which the environment is listed does not matter: two lists
/// that hold the same variables, none of which sets the field of another,
/// give the same merged mapping.
pub proof fn lemma_env_order_irrelevant(
    struct_prefix: Seq<char>,
    a: Seq<(Seq<char>, Seq<char>)>,
    b: Seq<(Seq<char>, Seq<char>)>,
    members: Seq<(Seq<char>, ValueView)>,
    pairs: Seq<Seq<char>>,
)
    requires
        forall|i: int| 0 <= i < a.len() ==> b.contains(#[trigger] a[i]),
        forall|i: int| 0 <= i < b.len() ==> a.contains(#[trigger] b[i]),
        sets_distinct_fields(struct_prefix, a),
        sets_distinct_fields(struct_prefix, b),
    ensures
        merged(struct_prefix, a, members, pairs) == merged(struct_prefix, b, members, pairs),
{
    let from_a = apply_all(Map::empty(), env_updates(struct_prefix, a));
    let from_b = apply_all(Map::empty(), env_updates(struct_prefix, b));
    assert forall|k: Seq<char>| #[trigger]
        from_a.dom().contains(k) implies from_b.dom().contains(k) && from_b[k] == from_a[k] by {
        lemma_env_one_way(struct_prefix, a, b, k);
    }
    assert forall|k: Seq<char>| #[trigger] from_b.dom().contains(k) implies from_a.dom().contains(
        k,
    ) by {
        lemma_env_one_way(struct_prefix, b, a, k);
    }
    assert(from_a.dom() =~= from_b.dom());
    assert(from_a =~= from_b);
}

/// What one list of variables sets, another list that holds them all sets
/// to the same value.
proof fn lemma_env_one_way(
    struct_prefix: Seq<char>,
    a: Seq<(Seq<char>, Seq<char>)>,
    b: Seq<(Seq<char>, Seq<char>)>,
    k: Seq<char>,
)
    requires
        forall|i: int| 0 <= i < a.len() ==> b.contains(#[trigger] a[i]),
        sets_distinct_fields(struct_prefix, a),
        sets_distinct_fields(struct_prefix, b),
        apply_all(Map::empty(), env_updates(struct_prefix, a)).contains_key(k),
    ensures
        apply_all(Map::empty(), env_updates(struct_prefix, b)).contains_key(k),
        apply_all(Map::empty(), env_updates(struct_prefix, b))[k] == apply_all(
            Map::empty(),
            env_updates(struct_prefix, a),
        )[k],
{
    let ups = env_updates(struct_prefix, a);
    if never_set(ups, k) {
        lemma_untouched_key(Map::empty(), ups, k);
    } else {
        let j = choose|j: int| 0 <= j < ups.len() && sets_key(#[trigger] ups[j], k);
        lemma_env_each_decides(struct_prefix, a, j);
        assert(b.contains(a[j]));
        let i = choose|i: int| 0 <= i < b.len() && b[i] == a[j];
        lemma_env_each_decides(struct_prefix, b, i);
    }
}

} // verus!
