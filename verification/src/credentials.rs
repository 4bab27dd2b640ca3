//! Credential overrides, carried from the call site to the storage backends.
//!
//! Keys are namespaced by backend (`aws.*`, `gcp.*`, `azure.*`). An empty
//! value counts as unset, so that empty options fall through to what the
//! environment provides. Unknown keys are ignored.
use vstd::prelude::*;

use crate::text::{same_text, strip_prefix};


verus! {

/// A flat map of credential overrides, keyed by `<scheme>.<field>`.
#[derive(Debug, Clone)]
pub struct ZarrCredentialOptions {
    entries: Vec<(String, String)>,
}

/// The map that a list of pairs stands for: of several pairs with one key the
/// last counts.
pub open spec fn pairs_map(pairs: Seq<(String, String)>) -> Map<Seq<char>, Seq<char>>
    decreases pairs.len(),
{
    if pairs.len() == 0 {
        Map::empty()
    } else {
        pairs_map(pairs.drop_last()).insert(pairs.last().0@, pairs.last().1@)
    }
}

/// The value under a key, unless it is absent or empty.
pub open spec fn override_of(map: Map<Seq<char>, Seq<char>>, key: Seq<char>) -> Option<Seq<char>> {
    if map.contains_key(key) && map[key].len() > 0 {
        Some(map[key])
    } else {
        None
    }
}

impl View for ZarrCredentialOptions {
    type V = Map<Seq<char>, Seq<char>>;

    closed spec fn view(&self) -> Map<Seq<char>, Seq<char>> {
        pairs_map(self.entries@)
    }
}

proof fn lemma_absent(pairs: Seq<(String, String)>, key: Seq<char>)
    requires
        forall|i: int| 0 <= i < pairs.len() ==> (#[trigger] pairs[i]).0@ != key,
    ensures
        !pairs_map(pairs).contains_key(key),
    decreases pairs.len(),
{
    if pairs.len() > 0 {
        let rest = pairs.drop_last();
        assert forall|i: int| 0 <= i < rest.len() implies (#[trigger] rest[i]).0@ != key by {
            assert(rest[i] == pairs[i]);
        }
        lemma_absent(rest, key);
        assert(pairs[pairs.len() - 1].0@ != key);
    }
}

proof fn lemma_present(pairs: Seq<(String, String)>, i: int)
    requires
        keys_distinct(pairs),
        0 <= i < pairs.len(),
    ensures
        pairs_map(pairs).contains_key(pairs[i].0@),
        pairs_map(pairs)[pairs[i].0@] == pairs[i].1@,
    decreases pairs.len(),
{
    let n = pairs.len() - 1;
    if i < n {
        let rest = pairs.drop_last();
        assert(rest[i] == pairs[i]);
        assert forall|j: int, k: int| 0 <= j < k < rest.len() implies (#[trigger] rest[j]).0@ != (
        #[trigger] rest[k]).0@ by {
            assert(pairs[j].0@ != pairs[k].0@);
        }
        lemma_present(rest, i);
        assert(pairs[i].0@ != pairs[n].0@);
    }
}

/// Where a key of the map stands in the list.
proof fn lemma_find(pairs: Seq<(String, String)>, key: Seq<char>) -> (i: int)
    requires
        pairs_map(pairs).contains_key(key),
    ensures
        0 <= i < pairs.len(),
        pairs[i].0@ == key,
{
    if forall|i: int| 0 <= i < pairs.len() ==> (#[trigger] pairs[i]).0@ != key {
        lemma_absent(pairs, key);
    }
    choose|i: int| 0 <= i < pairs.len() && (#[trigger] pairs[i]).0@ == key
}

/// Whether every entry is the last one with its key.
pub open spec fn keys_distinct(pairs: Seq<(String, String)>) -> bool {
    forall|i: int, j: int|
        0 <= i < j < pairs.len() ==> (#[trigger] pairs[i]).0@ != (#[trigger] pairs[j]).0@
}

impl ZarrCredentialOptions {
    /// No key occurs twice.
    pub closed spec fn wf(&self) -> bool {
        keys_distinct(self.entries@)
    }

    /// Wraps a list of pairs; of several with one key the last counts.
    pub fn new(map: Vec<(String, String)>) -> (r: Self)
        ensures
            r.wf(),
            r@ == pairs_map(map@),
    {
        let ghost given = map@;
        let mut entries: Vec<(String, String)> = Vec::new();
        let mut i: usize = 0;
        assert(given.take(0) =~= Seq::empty());
        while i < map.len()
            invariant
                i <= map.len(),
                given == map@,
                keys_distinct(entries@),
                pairs_map(entries@) == pairs_map(given.take(i as int)),
            decreases map.len() - i,
        {
            let key = map[i].0.clone();
            let value = map[i].1.clone();
            put(&mut entries, key, value);
            proof {
                assert(given.take(i + 1).drop_last() =~= given.take(i as int));
            }
            i += 1;
        }
        assert(given.take(i as int) =~= given);
        ZarrCredentialOptions { entries }
    }

    /// Looks up an override by its full key, such as `aws.region`. `None` if
    /// it is absent or empty.
    pub fn get(&self, key: &str) -> (r: Option<&str>)
        requires
            self.wf(),
        ensures
            match r {
                Some(v) => override_of(self@, key@) == Some(v@),
                None => override_of(self@, key@) is None,
            },
    {
        let mut i: usize = 0;
        while i < self.entries.len()
            invariant
                i <= self.entries@.len(),
                self.wf(),
                forall|j: int| 0 <= j < i ==> (#[trigger] self.entries@[j]).0@ != key@,
            decreases self.entries@.len() - i,
        {
            if same_text(self.entries[i].0.as_str(), key) {
                proof {
                    lemma_present(self.entries@, i as int);
                }
                let value = self.entries[i].1.as_str();
                if value.is_empty() {
                    return None;
                }
                return Some(value);
            }
            i += 1;
        }
        proof {
            lemma_absent(self.entries@, key@);
        }
        None
    }

    /// The overrides whose key starts with the prefix, each as the rest of
    /// its key and its value, in no particular order.
    pub fn iter_namespace<'a>(&'a self, prefix: &str) -> (r: Vec<(&'a str, &'a str)>)
        requires
            self.wf(),
        ensures
            forall|i: int|
                0 <= i < r@.len() ==> override_of(self@, prefix@ + (#[trigger] r@[i]).0@) == Some(
                    r@[i].1@,
                ),
            forall|rest: Seq<char>|
                #![trigger override_of(self@, prefix@ + rest)]
                override_of(self@, prefix@ + rest) is Some ==> exists|i: int|
                    0 <= i < r@.len() && (#[trigger] r@[i]).0@ == rest,
            forall|i: int, j: int|
                0 <= i < j < r@.len() ==> (#[trigger] r@[i]).0@ != (#[trigger] r@[j]).0@,
    {
        let mut out: Vec<(&'a str, &'a str)> = Vec::new();
        let mut i: usize = 0;
        let ghost mut source: Seq<int> = Seq::empty();
        while i < self.entries.len()
            invariant
                i <= self.entries@.len(),
                self.wf(),
                source.len() == out@.len(),
                forall|k: int| 0 <= k < source.len() ==> 0 <= #[trigger] source[k] < i,
                forall|k: int, l: int|
                    0 <= k < l < source.len() ==> #[trigger] source[k] < #[trigger] source[l],
                forall|k: int|
                    #![trigger out@[k]]
                    0 <= k < out@.len() ==> {
                        &&& self.entries@[source[k]].0@ == prefix@ + out@[k].0@
                        &&& self.entries@[source[k]].1@ == out@[k].1@
                        &&& out@[k].1@.len() > 0
                    },
                forall|j: int|
                    #![trigger self.entries@[j]]
                    0 <= j < i && prefix@.is_prefix_of(self.entries@[j].0@)
                        && self.entries@[j].1@.len() > 0 ==> source.contains(j),
            decreases self.entries@.len() - i,
        {
            let ghost before = source;
            let ghost out_before = out@;
            let key = self.entries[i].0.as_str();
            let value = self.entries[i].1.as_str();
            if let Some(rest) = strip_prefix(key, prefix) {
                assert(key@ =~= prefix@ + rest@);
                if !value.is_empty() {
                    out.push((rest, value));
                    proof {
                        source = source.push(i as int);
                        assert(source[before.len() as int] == i);
                    }
                }
            }
            assert forall|j: int|
                #![trigger self.entries@[j]]
                0 <= j < i + 1 && prefix@.is_prefix_of(self.entries@[j].0@)
                    && self.entries@[j].1@.len() > 0 implies source.contains(j) by {
                if j < i {
                    assert(before.contains(j));
                    let k = before.index_of(j);
                    assert(source[k] == j);
                } else {
                    assert(source[source.len() - 1] == i);
                }
            }
            i += 1;
        }
        proof {
            assert forall|k: int| 0 <= k < out@.len() implies override_of(
                self@,
                prefix@ + (#[trigger] out@[k]).0@,
            ) == Some(out@[k].1@) by {
                let full = prefix@ + out@[k].0@;
                assert(self.entries@[source[k]].0@ == full);
                lemma_present(self.entries@, source[k]);
            }
            assert forall|rest: Seq<char>|
                #![trigger override_of(self@, prefix@ + rest)]
                override_of(self@, prefix@ + rest) is Some implies exists|k: int|
                0 <= k < out@.len() && (#[trigger] out@[k]).0@ == rest by {
                let full = prefix@ + rest;
                let j = lemma_find(self.entries@, full);
                lemma_present(self.entries@, j);
                assert(full.take(prefix@.len() as int) =~= prefix@);
                assert(prefix@.is_prefix_of(self.entries@[j].0@));
                assert(source.contains(j));
                let k = source.index_of(j);
                assert(self.entries@[source[k]].0@ == prefix@ + out@[k].0@);
                assert(out@[k].0@ =~= full.skip(prefix@.len() as int));
                assert(rest =~= full.skip(prefix@.len() as int));
            }
            assert forall|k: int, l: int| 0 <= k < l < out@.len() implies (#[trigger] out@[k]).0@
                != (#[trigger] out@[l]).0@ by {
                assert(source[k] < source[l]);
                assert(self.entries@[source[k]].0@ != self.entries@[source[l]].0@);
            }
        }
        out
    }
}

impl Default for ZarrCredentialOptions {
    /// No overrides at all.
    fn default() -> (r: Self)
        ensures
            r.wf(),
            r@ == Map::<Seq<char>, Seq<char>>::empty(),
    {
        ZarrCredentialOptions { entries: Vec::new() }
    }
}

impl vstd::std_specs::convert::FromSpecImpl<Vec<(String, String)>> for ZarrCredentialOptions {
    open spec fn obeys_from_spec() -> bool {
        false
    }

    open spec fn from_spec(map: Vec<(String, String)>) -> Self {
        arbitrary()
    }
}

impl From<Vec<(String, String)>> for ZarrCredentialOptions {
    fn from(map: Vec<(String, String)>) -> (r: Self)
        ensures
            r.wf(),
            r@ == pairs_map(map@),
    {
        Self::new(map)
    }
}

/// Sets the value under a key, over the one that was there.
fn put(entries: &mut Vec<(String, String)>, key: String, value: String)
    requires
        keys_distinct(old(entries)@),
    ensures
        keys_distinct(final(entries)@),
        pairs_map(final(entries)@) == pairs_map(old(entries)@).insert(key@, value@),
{
    let ghost before = entries@;
    let mut i: usize = 0;
    while i < entries.len()
        invariant
            i <= entries@.len(),
            entries@ == before,
            keys_distinct(before),
            before == old(entries)@,
            forall|j: int| 0 <= j < i ==> (#[trigger] before[j]).0@ != key@,
        decreases entries@.len() - i,
    {
        if same_text(entries[i].0.as_str(), key.as_str()) {
            entries[i] = (key, value);
            proof {
                lemma_update_pair(before, i as int, entries@[i as int]);
            }
            return ;
        }
        i += 1;
    }
    entries.push((key, value));
    proof {
        assert(entries@.drop_last() =~= before);
    }
}

proof fn lemma_update_pair(pairs: Seq<(String, String)>, i: int, pair: (String, String))
    requires
        keys_distinct(pairs),
        0 <= i < pairs.len(),
        pairs[i].0@ == pair.0@,
    ensures
        keys_distinct(pairs.update(i, pair)),
        pairs_map(pairs.update(i, pair)) == pairs_map(pairs).insert(pair.0@, pair.1@),
{
    let after = pairs.update(i, pair);
    let a = pairs_map(after);
    let b = pairs_map(pairs).insert(pair.0@, pair.1@);
    assert forall|j: int, k: int| 0 <= j < k < after.len() implies (#[trigger] after[j]).0@ != (
    #[trigger] after[k]).0@ by {
        assert(pairs[j].0@ != pairs[k].0@);
    }
    assert forall|k: Seq<char>| #[trigger] a.dom().contains(k) implies b.dom().contains(k) && a[k]
        == b[k] by {
        let j = lemma_find(after, k);
        lemma_present(after, j);
        lemma_present(pairs, j);
        if j < i {
            assert(pairs[j].0@ != pairs[i].0@);
        } else if i < j {
            assert(pairs[i].0@ != pairs[j].0@);
        }
    }
    assert forall|k: Seq<char>| #[trigger] b.dom().contains(k) implies a.dom().contains(k) by {
        if k == pair.0@ {
            lemma_present(after, i);
        } else {
            let j = lemma_find(pairs, k);
            lemma_present(after, j);
        }
    }
    assert(a.dom() =~= b.dom());
    assert(a =~= b);
}

} // verus!
