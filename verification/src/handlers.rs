//! The three operations of the service, each on a store that the caller
//! holds for the length of the call.

use crate::failure::{answer, Failure, STATUS_NOT_FOUND};
use crate::store::{
    after_set, after_sets, entries_of, enumerates, law_unwritten_key_unchanged, value_at, Contents,
    Entry, Store,
};
use vstd::prelude::*;

verus! {

/// How a read of `key` ends: with the value that the key has, or as
/// `NotFound` where it has none.
pub open spec fn get_outcome(contents: Contents, key: Seq<char>) -> Result<Seq<char>, Failure> {
    match value_at(contents, key) {
        Some(value) => Ok(value),
        None => Err(Failure::NotFound),
    }
}

/// The body that lists `entries`: for each entry in turn its key and then
/// its value, with nothing between them and nothing between entries.
pub open spec fn render(entries: Seq<Entry>) -> Seq<char>
    decreases entries.len(),
{
    if entries.len() == 0 {
        Seq::<char>::empty()
    } else {
        render(entries.drop_last()) + entries.last().0 + entries.last().1
    }
}

/// `needle` stands somewhere in `text`, unbroken.
pub open spec fn occurs_in(needle: Seq<char>, text: Seq<char>) -> bool {
    exists|at: int|
        0 <= at && at + needle.len() <= text.len() && #[trigger] text.subrange(
            at,
            at + needle.len(),
        ) == needle
}

/// The body of a listing holds each entry's key followed at once by its
/// value.
pub proof fn lemma_render_holds_entry(entries: Seq<Entry>, i: int)
    requires
        0 <= i < entries.len(),
    ensures
        occurs_in(entries[i].0 + entries[i].1, render(entries)),
    decreases entries.len(),
{
    let whole = render(entries);
    let front = render(entries.drop_last());
    let needle = entries[i].0 + entries[i].1;
    if i == entries.len() - 1 {
        let at = front.len() as int;
        assert(whole.subrange(at, at + needle.len()) =~= needle);
    } else {
        lemma_render_holds_entry(entries.drop_last(), i);
        let at = choose|at: int|
            0 <= at && at + needle.len() <= front.len() && #[trigger] front.subrange(
                at,
                at + needle.len(),
            ) == needle;
        assert(whole.subrange(at, at + needle.len()) =~= front.subrange(at, at + needle.len()));
    }
}

/// Whatever the order of a listing, its body holds every key of the
/// contents followed at once by the value under that key.
pub proof fn law_listing_holds_every_entry(entries: Seq<Entry>, contents: Contents)
    requires
        enumerates(entries, contents),
    ensures
        forall|key: Seq<char>| #[trigger]
            contents.contains_key(key) ==> occurs_in(key + contents[key], render(entries)),
{
    assert forall|key: Seq<char>| #[trigger] contents.contains_key(key) implies occurs_in(
        key + contents[key],
        render(entries),
    ) by {
        let i = choose|i: int| 0 <= i < entries.len() && (#[trigger] entries[i]).0 == key;
        lemma_render_holds_entry(entries, i);
    }
}

/// A read of a key that was never set ends as `NotFound` and is answered
/// with status 404 and an empty body: so it is in a store that started
/// empty and took any run of writes, none of them under that key.
pub proof fn law_get_of_never_set_key_is_not_found(writes: Seq<Entry>, key: Seq<char>)
    requires
        forall|i: int| 0 <= i < writes.len() ==> (#[trigger] writes[i]).0 != key,
    ensures
        get_outcome(after_sets(Map::<Seq<char>, Seq<char>>::empty(), writes), key) == Err::<
            Seq<char>,
            Failure,
        >(Failure::NotFound),
        answer(get_outcome(after_sets(Map::<Seq<char>, Seq<char>>::empty(), writes), key)) == (
            STATUS_NOT_FOUND,
            Seq::<char>::empty(),
        ),
{
    law_unwritten_key_unchanged(Map::<Seq<char>, Seq<char>>::empty(), writes, key);
}

/// Reads the value under `key`. A key that has no value is the failure
/// `NotFound`; nothing else fails.
pub fn kv_get(key: &str, store: &Store) -> (outcome: Result<String, Failure>)
    ensures
        match outcome {
            Ok(value) => get_outcome(store@, key@) == Ok::<Seq<char>, Failure>(value@),
            Err(failure) => get_outcome(store@, key@) == Err::<Seq<char>, Failure>(failure),
        },
{
    match store.get(key) {
        Some(value) => Ok(value),
        None => Err(Failure::NotFound),
    }
}

/// Writes `value` under `key`. Any text is taken as it comes, so the write
/// always succeeds.
pub fn kv_set(key: String, store: &mut Store, value: String)
    ensures
        final(store)@ == after_set(old(store)@, key@, value@),
{
    store.set(key, value);
}

/// The body that lists the whole store: every entry's key and value run
/// together, in the order in which the store hands its entries out.
pub fn list_keys(store: &Store) -> (body: String)
    ensures
        body@ == render(store.entries()),
        enumerates(store.entries(), store@),
        forall|key: Seq<char>| #[trigger]
            store@.contains_key(key) ==> occurs_in(key + store@[key], body@),
{
    let pairs = store.list_all();
    let ghost entries = store.entries();
    let mut body = String::new();
    let mut at: usize = 0;
    while at < pairs.len()
        invariant
            at <= pairs.len(),
            entries == entries_of(pairs@),
            body@ == render(entries.take(at as int)),
        decreases pairs.len() - at,
    {
        proof {
            assert(entries.take(at + 1).drop_last() =~= entries.take(at as int));
        }
        body.append(pairs[at].0.as_str());
        body.append(pairs[at].1.as_str());
        at += 1;
    }
    proof {
        assert(entries.take(at as int) =~= entries);
        law_listing_holds_every_entry(entries, store@);
    }
    body
}

} // verus!
