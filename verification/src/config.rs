//! The configuration mapping: field names to dynamically typed values.

use crate::value::{ConfigValue, ValueView};
use vstd::prelude::*;
use vstd::string::*;

verus! {

/// What a list of entries with distinct keys maps each key to.
pub closed spec fn entries_map(s: Seq<(String, ConfigValue)>) -> Map<Seq<char>, ValueView> {
    Map::new(
        |k: Seq<char>| exists|i: int| 0 <= i < s.len() && (#[trigger] s[i]).0@ == k,
        |k: Seq<char>| s[choose|i: int| 0 <= i < s.len() && (#[trigger] s[i]).0@ == k].1@,
    )
}

/// Whether no two entries of `s` have the same key.
pub open spec fn distinct_keys(s: Seq<(String, ConfigValue)>) -> bool {
    forall|i: int, j: int|
        0 <= i < j < s.len() ==> (#[trigger] s[i]).0@ != (#[trigger] s[j]).0@
}

/// Among distinct keys, the entry at `i` is what its key is mapped to.
proof fn lemma_entry_at(s: Seq<(String, ConfigValue)>, i: int)
    requires
        distinct_keys(s),
        0 <= i < s.len(),
    ensures
        entries_map(s).contains_key(s[i].0@),
        entries_map(s)[s[i].0@] == s[i].1@,
{
    let k = s[i].0@;
    let c = choose|c: int| 0 <= c < s.len() && (#[trigger] s[c]).0@ == k;
    if c < i {
        assert(s[c].0@ != s[i].0@);
    } else if i < c {
        assert(s[i].0@ != s[c].0@);
    }
}

/// A key that no entry has is not mapped.
proof fn lemma_absent(s: Seq<(String, ConfigValue)>, k: Seq<char>)
    requires
        forall|i: int| 0 <= i < s.len() ==> (#[trigger] s[i]).0@ != k,
    ensures
        !entries_map(s).contains_key(k),
{
}

/// A key that is mapped belongs to some entry.
proof fn lemma_present(s: Seq<(String, ConfigValue)>, k: Seq<char>) -> (i: int)
    requires
        entries_map(s).contains_key(k),
    ensures
        0 <= i < s.len(),
        s[i].0@ == k,
{
    choose|i: int| 0 <= i < s.len() && (#[trigger] s[i]).0@ == k
}

/// Replacing the value of the entry at `i` maps its key to the new value.
proof fn lemma_replace(s: Seq<(String, ConfigValue)>, i: int, e: (String, ConfigValue))
    requires
        distinct_keys(s),
        0 <= i < s.len(),
        e.0@ == s[i].0@,
    ensures
        distinct_keys(s.update(i, e)),
        entries_map(s.update(i, e)) == entries_map(s).insert(e.0@, e.1@),
{
    let t = s.update(i, e);
    assert forall|a: int, b: int| 0 <= a < b < t.len() implies (#[trigger] t[a]).0@ != (
    #[trigger] t[b]).0@ by {
        assert(t[a].0@ == s[a].0@);
        assert(t[b].0@ == s[b].0@);
        assert(s[a].0@ != s[b].0@);
    }
    let want = entries_map(s).insert(e.0@, e.1@);
    assert forall|k: Seq<char>| entries_map(t).contains_key(k) <==> want.contains_key(k) by {
        if entries_map(t).contains_key(k) {
            let j = lemma_present(t, k);
            assert(s[j].0@ == k);
            lemma_entry_at(s, j);
        }
        if want.contains_key(k) {
            if k == e.0@ {
                lemma_entry_at(t, i);
            } else {
                let j = lemma_present(s, k);
                assert(t[j].0@ == k);
                lemma_entry_at(t, j);
            }
        }
    }
    assert forall|k: Seq<char>| entries_map(t).contains_key(k) implies entries_map(t)[k]
        == want[k] by {
        let j = lemma_present(t, k);
        lemma_entry_at(t, j);
        if j != i {
            assert(t[j] == s[j]);
            lemma_entry_at(s, j);
            if j < i {
                assert(s[j].0@ != s[i].0@);
            } else {
                assert(s[i].0@ != s[j].0@);
            }
        }
    }
    assert(entries_map(t) =~= want);
}

/// Appending an entry with a new key maps that key to its value.
proof fn lemma_append(s: Seq<(String, ConfigValue)>, e: (String, ConfigValue))
    requires
        distinct_keys(s),
        forall|i: int| 0 <= i < s.len() ==> (#[trigger] s[i]).0@ != e.0@,
    ensures
        distinct_keys(s.push(e)),
        entries_map(s.push(e)) == entries_map(s).insert(e.0@, e.1@),
{
    let t = s.push(e);
    assert forall|a: int, b: int| 0 <= a < b < t.len() implies (#[trigger] t[a]).0@ != (
    #[trigger] t[b]).0@ by {
        if b < s.len() {
            assert(t[a] == s[a] && t[b] == s[b]);
            assert(s[a].0@ != s[b].0@);
        } else {
            assert(t[a] == s[a]);
        }
    }
    let want = entries_map(s).insert(e.0@, e.1@);
    assert forall|k: Seq<char>| entries_map(t).contains_key(k) <==> want.contains_key(k) by {
        if entries_map(t).contains_key(k) {
            let j = lemma_present(t, k);
            if j < s.len() {
                assert(s[j].0@ == k);
                lemma_entry_at(s, j);
            }
        }
        if want.contains_key(k) {
            if k == e.0@ {
                lemma_entry_at(t, s.len() as int);
            } else {
                let j = lemma_present(s, k);
                assert(t[j].0@ == k);
                lemma_entry_at(t, j);
            }
        }
    }
    assert forall|k: Seq<char>| entries_map(t).contains_key(k) implies entries_map(t)[k]
        == want[k] by {
        let j = lemma_present(t, k);
        lemma_entry_at(t, j);
        if j < s.len() {
            assert(t[j] == s[j]);
            lemma_entry_at(s, j);
        }
    }
    assert(entries_map(t) =~= want);
}

/// Whether `entries` lists what `m` maps: each entry is a key of `m` with
/// its value, and each key of `m` has an entry.
pub open spec fn lists(entries: Seq<(String, ConfigValue)>, m: Map<Seq<char>, ValueView>) -> bool {
    &&& forall|i: int|
        0 <= i < entries.len() ==> m.contains_key((#[trigger] entries[i]).0@) && m[entries[i].0@]
            == entries[i].1@
    &&& forall|k: Seq<char>|
        m.contains_key(k) ==> exists|i: int|
            0 <= i < entries.len() && (#[trigger] entries[i]).0@ == k
}

/// The index of the entry with key `key`, if there is one.
fn position(entries: &Vec<(String, ConfigValue)>, key: &String) -> (r: Option<usize>)
    ensures
        match r {
            Some(i) => i < entries.len() && entries[i as int].0@ == key@,
            None => forall|i: int| 0 <= i < entries.len() ==> (#[trigger] entries[i]).0@ != key@,
        },
{
    let mut i: usize = 0;
    while i < entries.len()
        invariant
            i <= entries.len(),
            forall|k: int| 0 <= k < i ==> (#[trigger] entries[k]).0@ != key@,
        decreases entries.len() - i,
    {
        if entries[i].0 == *key {
            return Some(i);
        }
        i += 1;
    }
    None
}

/// A mapping from field names to values. Each name occurs once; the order of
/// the entries carries no meaning.
#[derive(Debug)]
pub struct ConfigMap {
    entries: Vec<(String, ConfigValue)>,
}

impl View for ConfigMap {
    type V = Map<Seq<char>, ValueView>;

    closed spec fn view(&self) -> Map<Seq<char>, ValueView> {
        entries_map(self.entries@)
    }
}

impl ConfigMap {
    #[verifier::type_invariant]
    spec fn well_formed(self) -> bool {
        distinct_keys(self.entries@)
    }

    /// The empty mapping.
    pub fn new() -> (m: ConfigMap)
        ensures
            m@ == Map::<Seq<char>, ValueView>::empty(),
    {
        let m = ConfigMap { entries: Vec::new() };
        proof {
            assert(m@ =~= Map::<Seq<char>, ValueView>::empty());
        }
        m
    }

    /// Maps `key` to `value`, in place of what it was mapped to before.
    pub fn insert(&mut self, key: String, value: ConfigValue)
        ensures
            final(self)@ == old(self)@.insert(key@, value@),
    {
        proof {
            use_type_invariant(&*self);
        }
        let mut entries: Vec<(String, ConfigValue)> = Vec::new();
        std::mem::swap(&mut entries, &mut self.entries);
        let ghost before = entries@;
        match position(&entries, &key) {
            Some(i) => {
                proof {
                    lemma_replace(before, i as int, (key, value));
                }
                entries.set(i, (key, value));
            },
            None => {
                proof {
                    lemma_append(before, (key, value));
                }
                entries.push((key, value));
            },
        }
        self.entries = entries;
    }

    /// The value that `key` is mapped to, if any.
    pub fn get(&self, key: &str) -> (r: Option<&ConfigValue>)
        ensures
            r is Some == self@.contains_key(key@),
            r is Some ==> r->0@ == self@[key@],
    {
        proof {
            use_type_invariant(self);
        }
        let owned = String::from_str(key);
        match position(&self.entries, &owned) {
            Some(i) => {
                proof {
                    lemma_entry_at(self.entries@, i as int);
                }
                Some(&self.entries[i].1)
            },
            None => {
                proof {
                    lemma_absent(self.entries@, key@);
                }
                None
            },
        }
    }

    /// The entries of the mapping, each key once, in no particular order.
    pub fn entries(&self) -> (r: &Vec<(String, ConfigValue)>)
        ensures
            lists(r@, self@),
            distinct_keys(r@),
    {
        proof {
            use_type_invariant(self);
            let s = self.entries@;
            assert forall|i: int| 0 <= i < s.len() implies self@.contains_key(
                (#[trigger] s[i]).0@,
            ) && self@[s[i].0@] == s[i].1@ by {
                lemma_entry_at(s, i);
            }
            assert forall|k: Seq<char>| self@.contains_key(k) implies exists|i: int|
                0 <= i < s.len() && (#[trigger] s[i]).0@ == k by {
                let i = lemma_present(s, k);
            }
        }
        &self.entries
    }

    /// Whether `key` is mapped.
    pub fn contains_key(&self, key: &str) -> (r: bool)
        ensures
            r == self@.contains_key(key@),
    {
        self.get(key).is_some()
    }
}

} // verus!
