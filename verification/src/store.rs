//! The store: a mapping from text keys to text values.
//!
//! A `Store` is a plain value. Whoever shares one between tasks wraps it in a
//! readers-writer lock, so that `get` and `list_all` run under a read
//! access and `set` under the one write access; such a lock makes no promise
//! of fairness between readers and writers.

use vstd::hash_map::StringHashMap;
use vstd::prelude::*;

verus! {

/// What a store holds, as mathematics: each key with its one value.
pub type Contents = Map<Seq<char>, Seq<char>>;

/// One entry of a store: a key and the value under it.
pub type Entry = (Seq<char>, Seq<char>);

/// The value read under `key`, if the key has one.
pub open spec fn value_at(contents: Contents, key: Seq<char>) -> Option<Seq<char>> {
    if contents.contains_key(key) {
        Some(contents[key])
    } else {
        None
    }
}

/// The contents after `value` is written under `key`: a new key is added,
/// the value of a key that is present is replaced, every other key keeps
/// what it had.
pub open spec fn after_set(contents: Contents, key: Seq<char>, value: Seq<char>) -> Contents {
    contents.insert(key, value)
}

/// The contents after each of `writes` is applied in turn, first to last.
pub open spec fn after_sets(contents: Contents, writes: Seq<Entry>) -> Contents
    decreases writes.len(),
{
    if writes.len() == 0 {
        contents
    } else {
        let last = writes.last();
        after_set(after_sets(contents, writes.drop_last()), last.0, last.1)
    }
}

/// `entries` lists `contents` exactly: no key twice, every listed pair is in
/// the contents, and every key of the contents is listed.
pub open spec fn enumerates(entries: Seq<Entry>, contents: Contents) -> bool {
    &&& forall|i: int, j: int|
        0 <= i < j < entries.len() ==> (#[trigger] entries[i]).0 != (#[trigger] entries[j]).0
    &&& forall|i: int|
        0 <= i < entries.len() ==> value_at(contents, (#[trigger] entries[i]).0) == Some(
            entries[i].1,
        )
    &&& forall|key: Seq<char>| #[trigger]
        contents.contains_key(key) ==> exists|i: int|
            0 <= i < entries.len() && (#[trigger] entries[i]).0 == key
}

/// The text of each string of a pair.
pub open spec fn entry_of(pair: (String, String)) -> Entry {
    (pair.0@, pair.1@)
}

/// The entries that a vector of pairs stands for, in the same order.
pub open spec fn entries_of(pairs: Seq<(String, String)>) -> Seq<Entry> {
    pairs.map_values(|pair: (String, String)| entry_of(pair))
}

/// What is written under a key is what is read under it.
pub proof fn law_get_after_set(contents: Contents, key: Seq<char>, value: Seq<char>)
    ensures
        value_at(after_set(contents, key, value), key) == Some(value),
{
}

/// A write under one key leaves what is read under every other key.
pub proof fn law_set_leaves_other_keys(
    contents: Contents,
    key: Seq<char>,
    value: Seq<char>,
    other: Seq<char>,
)
    requires
        other != key,
    ensures
        value_at(after_set(contents, key, value), other) == value_at(contents, other),
{
}

/// Of two writes under one key the second is the one that is read: the
/// contents are those that the second write alone would have left.
pub proof fn law_last_write_wins(
    contents: Contents,
    key: Seq<char>,
    first: Seq<char>,
    second: Seq<char>,
)
    ensures
        value_at(after_set(after_set(contents, key, first), key, second), key) == Some(second),
        after_set(after_set(contents, key, first), key, second) == after_set(contents, key, second),
{
    assert(contents.insert(key, first).insert(key, second) =~= contents.insert(key, second));
}

/// A key that none of a run of writes names reads after them as it did
/// before them.
pub proof fn law_unwritten_key_unchanged(contents: Contents, writes: Seq<Entry>, key: Seq<char>)
    requires
        forall|i: int| 0 <= i < writes.len() ==> (#[trigger] writes[i]).0 != key,
    ensures
        value_at(after_sets(contents, writes), key) == value_at(contents, key),
    decreases writes.len(),
{
    if writes.len() > 0 {
        let earlier = writes.drop_last();
        assert forall|i: int| 0 <= i < earlier.len() implies (#[trigger] earlier[i]).0 != key by {
            assert(earlier[i] == writes[i]);
        }
        law_unwritten_key_unchanged(contents, earlier, key);
        assert(writes.last() == writes[writes.len() - 1]);
    }
}

/// After a run of writes, in whatever order they were applied, a key reads
/// as its last write left it: the write at `at` is read back where no later
/// write is under the same key.
pub proof fn law_sets_keep_last_write(contents: Contents, writes: Seq<Entry>, at: int)
    requires
        0 <= at < writes.len(),
        forall|j: int| at < j < writes.len() ==> (#[trigger] writes[j]).0 != writes[at].0,
    ensures
        value_at(after_sets(contents, writes), writes[at].0) == Some(writes[at].1),
    decreases writes.len(),
{
    let earlier = writes.drop_last();
    assert(writes.last() == writes[writes.len() - 1]);
    if at < writes.len() - 1 {
        assert(earlier[at] == writes[at]);
        assert forall|j: int| at < j < earlier.len() implies (#[trigger] earlier[j]).0
            != earlier[at].0 by {
            assert(earlier[j] == writes[j]);
        }
        law_sets_keep_last_write(contents, earlier, at);
    }
}

/// Writes under keys that all differ lose nothing: applied in any order,
/// each of them is read back afterwards.
pub proof fn law_distinct_sets_all_kept(contents: Contents, writes: Seq<Entry>)
    requires
        forall|i: int, j: int|
            0 <= i < j < writes.len() ==> (#[trigger] writes[i]).0 != (#[trigger] writes[j]).0,
    ensures
        forall|i: int|
            0 <= i < writes.len() ==> value_at(
                after_sets(contents, writes),
                (#[trigger] writes[i]).0,
            ) == Some(writes[i].1),
{
    assert forall|i: int| 0 <= i < writes.len() implies value_at(
        after_sets(contents, writes),
        (#[trigger] writes[i]).0,
    ) == Some(writes[i].1) by {
        law_sets_keep_last_write(contents, writes, i);
    }
}

/// `listed` holds every key of `held` once, and nothing else.
spec fn lists_keys(listed: Seq<String>, held: Map<Seq<char>, String>) -> bool {
    &&& forall|i: int, j: int|
        0 <= i < j < listed.len() ==> (#[trigger] listed[i])@ != (#[trigger] listed[j])@
    &&& forall|i: int| 0 <= i < listed.len() ==> held.contains_key((#[trigger] listed[i])@)
    &&& forall|key: Seq<char>| #[trigger]
        held.contains_key(key) ==> exists|i: int|
            0 <= i < listed.len() && (#[trigger] listed[i])@ == key
}

/// Writing under a key that is listed leaves the list as it is.
proof fn lemma_rewrite_keeps_list(
    listed: Seq<String>,
    held: Map<Seq<char>, String>,
    key: Seq<char>,
    value: String,
)
    requires
        lists_keys(listed, held),
        held.contains_key(key),
    ensures
        lists_keys(listed, held.insert(key, value)),
{
    let after = held.insert(key, value);
    assert forall|k: Seq<char>| #[trigger] after.contains_key(k) implies exists|i: int|
        0 <= i < listed.len() && (#[trigger] listed[i])@ == k by {
        assert(held.contains_key(k));
    }
}

/// Writing under a new key goes with listing that key last.
proof fn lemma_new_key_extends_list(
    listed: Seq<String>,
    held: Map<Seq<char>, String>,
    key: String,
    value: String,
)
    requires
        lists_keys(listed, held),
        !held.contains_key(key@),
    ensures
        lists_keys(listed.push(key), held.insert(key@, value)),
{
    let longer = listed.push(key);
    let after = held.insert(key@, value);
    assert forall|i: int, j: int| 0 <= i < j < longer.len() implies (#[trigger] longer[i])@
        != (#[trigger] longer[j])@ by {
        if j == listed.len() {
            assert(held.contains_key(listed[i]@));
        } else {
            assert(listed[i]@ != listed[j]@);
        }
    }
    assert forall|i: int| 0 <= i < longer.len() implies after.contains_key(
        (#[trigger] longer[i])@,
    ) by {
        if i < listed.len() {
            assert(held.contains_key(listed[i]@));
        }
    }
    assert forall|k: Seq<char>| #[trigger] after.contains_key(k) implies exists|i: int|
        0 <= i < longer.len() && (#[trigger] longer[i])@ == k by {
        if held.contains_key(k) {
            let i = choose|i: int| 0 <= i < listed.len() && (#[trigger] listed[i])@ == k;
            assert(longer[i]@ == k);
        } else {
            assert(longer[listed.len() as int]@ == k);
        }
    }
}

/// An in-memory mapping from key to value.
///
/// Values are looked up in a hash map; beside it the keys are kept in the
/// order in which they first arrived, which is the order of `list_all`.
pub struct Store {
    values: StringHashMap<String>,
    order: Vec<String>,
}

impl View for Store {
    type V = Contents;

    closed spec fn view(&self) -> Contents {
        Map::new(
            |key: Seq<char>| self.values@.contains_key(key),
            |key: Seq<char>| self.values@[key]@,
        )
    }
}

impl Default for Store {
    /// A store that holds nothing.
    fn default() -> (store: Store)
        ensures
            store@ == Map::<Seq<char>, Seq<char>>::empty(),
    {
        Store::new()
    }
}

impl Store {
    /// The keys are listed once each, and they are the keys of the map.
    #[verifier::type_invariant]
    spec fn well_formed(self) -> bool {
        lists_keys(self.order@, self.values@)
    }

    /// The entries in the order in which `list_all` hands them out.
    pub closed spec fn entries(&self) -> Seq<Entry> {
        Seq::new(
            self.order.len() as nat,
            |i: int| (self.order[i]@, self.values@[self.order[i]@]@),
        )
    }

    /// A store that holds nothing.
    pub fn new() -> (store: Store)
        ensures
            store@ == Map::<Seq<char>, Seq<char>>::empty(),
    {
        let store = Store { values: StringHashMap::new(), order: Vec::new() };
        assert(store@ =~= Map::<Seq<char>, Seq<char>>::empty());
        store
    }

    /// The value under `key`, or `None` where the key was never set.
    pub fn get(&self, key: &str) -> (value: Option<String>)
        ensures
            match value {
                Some(text) => value_at(self@, key@) == Some(text@),
                None => value_at(self@, key@) is None,
            },
    {
        match self.values.get(key) {
            Some(text) => Some(text.clone()),
            None => None,
        }
    }

    /// Puts `value` under `key`, in place of whatever the key had.
    pub fn set(&mut self, key: String, value: String)
        ensures
            final(self)@ == after_set(old(self)@, key@, value@),
    {
        proof {
            use_type_invariant(&*self);
        }
        let mut taken = Store::new();
        std::mem::swap(self, &mut taken);
        let Store { mut values, mut order } = taken;
        let ghost held = values@;
        let ghost listed = order@;
        if values.contains_key(key.as_str()) {
            proof {
                lemma_rewrite_keeps_list(listed, held, key@, value);
            }
        } else {
            order.push(key.clone());
            proof {
                lemma_new_key_extends_list(listed, held, key, value);
            }
        }
        values.insert(key, value);
        let stored = Store { values, order };
        assert(stored@ =~= after_set(old(self)@, key@, value@));
        *self = stored;
    }

    /// Every entry of the store, each key once, as the store stands now.
    /// Callers must not rely on the order.
    pub fn list_all(&self) -> (pairs: Vec<(String, String)>)
        ensures
            entries_of(pairs@) == self.entries(),
            enumerates(self.entries(), self@),
    {
        proof {
            use_type_invariant(self);
        }
        let mut pairs: Vec<(String, String)> = Vec::new();
        let mut at: usize = 0;
        while at < self.order.len()
            invariant
                at <= self.order.len(),
                pairs.len() == at,
                lists_keys(self.order@, self.values@),
                forall|i: int| 0 <= i < at ==> entry_of(#[trigger] pairs[i]) == self.entries()[i],
            decreases self.order.len() - at,
        {
            let key = &self.order[at];
            match self.values.get(key.as_str()) {
                Some(text) => {
                    pairs.push((key.clone(), text.clone()));
                },
                None => {
                    proof {
                        assert(self.values@.contains_key(self.order[at as int]@));
                        assert(false);
                    }
                },
            }
            at += 1;
        }
        assert(entries_of(pairs@) =~= self.entries());
        proof {
            self.entries_enumerate();
        }
        pairs
    }

    /// The listing of a well-formed store enumerates its contents.
    proof fn entries_enumerate(&self)
        requires
            self.well_formed(),
        ensures
            enumerates(self.entries(), self@),
    {
        let entries = self.entries();
        assert forall|key: Seq<char>| #[trigger] self@.contains_key(key) implies exists|i: int|
            0 <= i < entries.len() && (#[trigger] entries[i]).0 == key by {
            assert(self.values@.contains_key(key));
            let i = choose|i: int| 0 <= i < self.order.len() && (#[trigger] self.order[i])@ == key;
            assert(entries[i].0 == key);
        }
    }
}

} // verus!
