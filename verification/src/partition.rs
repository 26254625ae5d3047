//! The argument partitioner: the tokens of a trailing argument list that
//! belong to one selection flag's namespace, with the namespace taken off.

use crate::text::{chars_of, has_prefix, starts_with, string_of, tail_from};
use vstd::prelude::*;

verus! {

/// The long namespace prefix of `flag`: two dashes, the flag, a dot.
pub open spec fn long_prefix(flag: Seq<char>) -> Seq<char> {
    seq!['-', '-'] + flag + seq!['.']
}

/// The short namespace prefix of `flag`: one dash, the flag, a dot.
pub open spec fn short_prefix(flag: Seq<char>) -> Seq<char> {
    seq!['-'] + flag + seq!['.']
}

/// Whether `token` lies in the namespace of `flag`, by either prefix.
pub open spec fn in_namespace(token: Seq<char>, flag: Seq<char>) -> bool {
    has_prefix(token, long_prefix(flag)) || has_prefix(token, short_prefix(flag))
}

/// Whether `token` starts with a dash, and so cannot be a flag's value.
pub open spec fn is_dashed(token: Seq<char>) -> bool {
    token.len() > 0 && token[0] == '-'
}

/// A token of the namespace of `flag` with the namespace taken off: the
/// dashes of its prefix, then what follows the dot. The long prefix is tried
/// first.
pub open spec fn stripped(token: Seq<char>, flag: Seq<char>) -> Seq<char> {
    if has_prefix(token, long_prefix(flag)) {
        seq!['-', '-'] + token.skip(long_prefix(flag).len() as int)
    } else {
        seq!['-'] + token.skip(short_prefix(flag).len() as int)
    }
}

/// Whether the token at `i` is forwarded as the value of the flag before it.
pub open spec fn takes_value(tokens: Seq<Seq<char>>, i: int) -> bool {
    i + 1 < tokens.len() && !is_dashed(tokens[i + 1])
}

/// The tokens routed to `flag`, scanning `tokens` from the left: a token of
/// the namespace is forwarded stripped; the token after it, unless it starts
/// with a dash, is forwarded as it is and not scanned again; every other
/// token is dropped.
pub open spec fn partitioned(tokens: Seq<Seq<char>>, flag: Seq<char>) -> Seq<Seq<char>>
    decreases tokens.len(),
{
    if tokens.len() == 0 {
        Seq::empty()
    } else if in_namespace(tokens[0], flag) {
        if takes_value(tokens, 0) {
            seq![stripped(tokens[0], flag), tokens[1]] + partitioned(tokens.skip(2), flag)
        } else {
            seq![stripped(tokens[0], flag)] + partitioned(tokens.skip(1), flag)
        }
    } else {
        partitioned(tokens.skip(1), flag)
    }
}

/// The characters of a namespace prefix: the long one or the short one.
fn prefix_chars(flag: &Vec<char>, long: bool) -> (out: Vec<char>)
    ensures
        out@ == if long {
            long_prefix(flag@)
        } else {
            short_prefix(flag@)
        },
{
    let mut out: Vec<char> = Vec::new();
    out.push('-');
    if long {
        out.push('-');
    }
    let ghost head = out@;
    let mut i: usize = 0;
    while i < flag.len()
        invariant
            i <= flag.len(),
            out@ == head + flag@.subrange(0, i as int),
        decreases flag.len() - i,
    {
        out.push(flag[i]);
        proof {
            assert(out@ =~= head + flag@.subrange(0, i + 1));
        }
        i += 1;
    }
    out.push('.');
    proof {
        assert(flag@.subrange(0, flag.len() as int) =~= flag@);
        if long {
            assert(head =~= seq!['-', '-']);
            assert(out@ =~= long_prefix(flag@));
        } else {
            assert(head =~= seq!['-']);
            assert(out@ =~= short_prefix(flag@));
        }
    }
    out
}

/// Tests whether `token` starts with a dash.
pub fn starts_with_dash(token: &str) -> (r: bool)
    ensures
        r == is_dashed(token@),
{
    token.unicode_len() > 0 && token.get_char(0) == '-'
}

/// The stripped form of a token of the namespace, or `None` for a token
/// outside it.
fn strip_namespace(token: &str, long: &Vec<char>, short: &Vec<char>, flag: Ghost<Seq<char>>) -> (r:
    Option<String>)
    requires
        long@ == long_prefix(flag@),
        short@ == short_prefix(flag@),
    ensures
        r is Some == in_namespace(token@, flag@),
        r is Some ==> r->0@ == stripped(token@, flag@),
{
    let chars = chars_of(token);
    if starts_with(&chars, long) {
        let mut rest = tail_from(&chars, long.len());
        let mut out: Vec<char> = Vec::new();
        out.push('-');
        out.push('-');
        out.append(&mut rest);
        proof {
            assert(out@ =~= stripped(token@, flag@));
        }
        Some(string_of(&out))
    } else if starts_with(&chars, short) {
        let mut rest = tail_from(&chars, short.len());
        let mut out: Vec<char> = Vec::new();
        out.push('-');
        out.append(&mut rest);
        proof {
            assert(out@ =~= stripped(token@, flag@));
        }
        Some(string_of(&out))
    } else {
        None
    }
}

/// Routes the tokens of `tokens` that lie in the namespace of `flag`, as
/// [`partitioned`] says. The input is left as it is.
pub fn partition(tokens: &Vec<String>, flag: &str) -> (out: Vec<String>)
    ensures
        out.deep_view() == partitioned(tokens.deep_view(), flag@),
{
    let flag_chars = chars_of(flag);
    let long = prefix_chars(&flag_chars, true);
    let short = prefix_chars(&flag_chars, false);
    let ghost all = tokens.deep_view();
    let mut out: Vec<String> = Vec::new();
    let mut i: usize = 0;
    proof {
        assert(all.skip(0) =~= all);
        assert(out.deep_view() + partitioned(all, flag@) =~= partitioned(all, flag@));
    }
    while i < tokens.len()
        invariant
            i <= tokens.len(),
            all == tokens.deep_view(),
            long@ == long_prefix(flag@),
            short@ == short_prefix(flag@),
            out.deep_view() + partitioned(all.skip(i as int), flag@) == partitioned(all, flag@),
        decreases tokens.len() - i,
    {
        let ghost rest = all.skip(i as int);
        let ghost before = out.deep_view();
        proof {
            assert(rest[0] == tokens@[i as int]@);
            assert(rest.len() >= 2 ==> rest[1] == tokens@[i + 1]@);
        }
        match strip_namespace(tokens[i].as_str(), &long, &short, Ghost(flag@)) {
            Some(bare) => {
                out.push(bare);
                if i + 1 < tokens.len() && !starts_with_dash(tokens[i + 1].as_str()) {
                    out.push(tokens[i + 1].clone());
                    proof {
                        assert(rest.skip(2) =~= all.skip(i + 2));
                        assert(out.deep_view() =~= before + seq![
                            stripped(rest[0], flag@),
                            rest[1],
                        ]);
                        assert(out.deep_view() + partitioned(all.skip(i + 2), flag@) =~= before
                            + partitioned(rest, flag@));
                    }
                    i += 2;
                } else {
                    proof {
                        assert(rest.skip(1) =~= all.skip(i + 1));
                        assert(out.deep_view() =~= before + seq![stripped(rest[0], flag@)]);
                        assert(out.deep_view() + partitioned(all.skip(i + 1), flag@) =~= before
                            + partitioned(rest, flag@));
                    }
                    i += 1;
                }
            },
            None => {
                proof {
                    assert(rest.skip(1) =~= all.skip(i + 1));
                }
                i += 1;
            },
        }
    }
    proof {
        assert(all.skip(i as int).len() == 0);
        assert(out.deep_view() + partitioned(all.skip(i as int), flag@) =~= out.deep_view());
    }
    out
}

/// Whether `routed` is what the token at `j` of `tokens` contributes to the
/// partition for `flag`: the stripped form of a token of the namespace, or a
/// token without a leading dash that stands right after one.
pub open spec fn comes_from(
    routed: Seq<char>,
    tokens: Seq<Seq<char>>,
    flag: Seq<char>,
    j: int,
) -> bool {
    0 <= j < tokens.len() && ((in_namespace(tokens[j], flag) && routed == stripped(
        tokens[j],
        flag,
    )) || (j > 0 && in_namespace(tokens[j - 1], flag) && !is_dashed(tokens[j]) && routed
        == tokens[j]))
}

/// Whether some token of `tokens` contributes `routed` to the partition.
pub open spec fn has_source(routed: Seq<char>, tokens: Seq<Seq<char>>, flag: Seq<char>) -> bool {
    exists|j: int| #[trigger] comes_from(routed, tokens, flag, j)
}

/// No token is routed without cause: every token of the partition is the
/// stripped form of an input token that has one of the flag's two prefixes,
/// or the value that directly follows such a token. A token that has neither
/// prefix and follows no token of the namespace is never forwarded.
pub proof fn lemma_partition_sources(tokens: Seq<Seq<char>>, flag: Seq<char>)
    ensures
        forall|k: int|
            0 <= k < partitioned(tokens, flag).len() ==> has_source(
                #[trigger] partitioned(tokens, flag)[k],
                tokens,
                flag,
            ),
    decreases tokens.len(),
{
    let out = partitioned(tokens, flag);
    if tokens.len() == 0 {
    } else {
        let n: int = if in_namespace(tokens[0], flag) && takes_value(tokens, 0) {
            2
        } else {
            1
        };
        let rest = tokens.skip(n);
        let tail = partitioned(rest, flag);
        let head_len = out.len() - tail.len();
        lemma_partition_sources(rest, flag);
        assert forall|k: int| 0 <= k < out.len() implies has_source(
            #[trigger] out[k],
            tokens,
            flag,
        ) by {
            if k < head_len {
                if k == 0 {
                    assert(comes_from(out[k], tokens, flag, 0));
                } else {
                    assert(comes_from(out[k], tokens, flag, 1));
                }
            } else {
                assert(out[k] == tail[k - head_len]);
                assert(has_source(tail[k - head_len], rest, flag));
                let j = choose|j: int| #[trigger] comes_from(tail[k - head_len], rest, flag, j);
                assert(rest[j] == tokens[j + n]);
                if j > 0 {
                    assert(rest[j - 1] == tokens[j + n - 1]);
                }
                assert(comes_from(out[k], tokens, flag, j + n));
            }
        }
    }
}

/// Tokens outside the namespace are not selected: where no token of `tokens`
/// has either prefix of `flag`, nothing is routed.
pub proof fn lemma_partition_unprefixed(tokens: Seq<Seq<char>>, flag: Seq<char>)
    requires
        forall|j: int| 0 <= j < tokens.len() ==> !in_namespace(#[trigger] tokens[j], flag),
    ensures
        partitioned(tokens, flag) == Seq::<Seq<char>>::empty(),
    decreases tokens.len(),
{
    if tokens.len() > 0 {
        let rest = tokens.skip(1);
        assert forall|j: int| 0 <= j < rest.len() implies !in_namespace(
            #[trigger] rest[j],
            flag,
        ) by {
            assert(rest[j] == tokens[j + 1]);
        }
        lemma_partition_unprefixed(rest, flag);
    }
}

/// A token without a leading dash has neither prefix of any flag.
pub proof fn lemma_undashed_outside_namespace(token: Seq<char>, flag: Seq<char>)
    requires
        !is_dashed(token),
    ensures
        !in_namespace(token, flag),
{
    if has_prefix(token, long_prefix(flag)) {
        assert(token.subrange(0, long_prefix(flag).len() as int)[0] == long_prefix(flag)[0]);
    }
    if has_prefix(token, short_prefix(flag)) {
        assert(token.subrange(0, short_prefix(flag).len() as int)[0] == short_prefix(flag)[0]);
    }
}

/// Partitioning what was already partitioned selects nothing, provided that
/// no stripped token falls into the namespace again (as the stripped form of
/// `--add.add.x` does for the flag `add`).
pub proof fn lemma_partition_of_partition(tokens: Seq<Seq<char>>, flag: Seq<char>)
    requires
        forall|j: int|
            0 <= j < tokens.len() && in_namespace(#[trigger] tokens[j], flag) ==> !in_namespace(
                stripped(tokens[j], flag),
                flag,
            ),
    ensures
        partitioned(partitioned(tokens, flag), flag) == Seq::<Seq<char>>::empty(),
{
    let out = partitioned(tokens, flag);
    lemma_partition_sources(tokens, flag);
    assert forall|k: int| 0 <= k < out.len() implies !in_namespace(#[trigger] out[k], flag) by {
        assert(has_source(out[k], tokens, flag));
        let j = choose|j: int| #[trigger] comes_from(out[k], tokens, flag, j);
        if in_namespace(tokens[j], flag) && out[k] == stripped(tokens[j], flag) {
        } else {
            lemma_undashed_outside_namespace(tokens[j], flag);
        }
    }
    lemma_partition_unprefixed(out, flag);
}

} // verus!
