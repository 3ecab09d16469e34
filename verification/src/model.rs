//! The store as a sequence of entries, and what each operation makes of it.

use crate::bookmark::Bookmark;
use crate::bookmark::Entry;
use crate::offset::is_nan;
use crate::offset::precedes;
use vstd::prelude::*;

verus! {

/// The entries that a list of bookmarks holds, in its order.
pub open spec fn entries(bookmarks: Seq<Bookmark>) -> Seq<Entry> {
    bookmarks.map_values(|bookmark: Bookmark| bookmark@)
}

/// Whether `index` is where the first entry of the given name stands, or the
/// length of the sequence where no entry bears the name.
pub open spec fn is_first_named(store: Seq<Entry>, name: Seq<char>, index: int) -> bool {
    &&& 0 <= index <= store.len()
    &&& forall|i: int| 0 <= i < index ==> (#[trigger] store[i]).name != name
    &&& index < store.len() ==> store[index].name == name
}

/// The index of the first entry of the given name, or the length of the
/// sequence where no entry bears the name.
pub open spec fn first_named(store: Seq<Entry>, name: Seq<char>) -> int {
    choose|index: int| is_first_named(store, name, index)
}

/// Whether some entry bears the name.
pub open spec fn has_name(store: Seq<Entry>, name: Seq<char>) -> bool {
    first_named(store, name) < store.len()
}

/// The first entry of the given name, if there is one.
pub open spec fn found(store: Seq<Entry>, name: Seq<char>) -> Option<Entry> {
    if has_name(store, name) {
        Some(store[first_named(store, name)])
    } else {
        None
    }
}

/// The store without the first entry of the given name.
pub open spec fn removed(store: Seq<Entry>, name: Seq<char>) -> Seq<Entry> {
    if has_name(store, name) {
        store.remove(first_named(store, name))
    } else {
        store
    }
}

/// The store with the offset of the first entry of the given name replaced,
/// or with a new entry at its end where no entry bears the name.
pub open spec fn upserted(store: Seq<Entry>, name: Seq<char>, offset: u64) -> Seq<Entry> {
    if has_name(store, name) {
        store.update(first_named(store, name), Entry { name, offset })
    } else {
        store.push(Entry { name, offset })
    }
}

/// An ordered sequence with one more entry: the entry stands behind every
/// entry that it would not pass, counted from the end. It passes an entry
/// only where its offset is strictly less.
pub open spec fn insert_by_offset(store: Seq<Entry>, entry: Entry) -> Seq<Entry>
    decreases store.len(),
{
    if store.len() > 0 && precedes(entry.offset, store.last().offset) {
        insert_by_offset(store.drop_last(), entry).push(store.last())
    } else {
        store.push(entry)
    }
}

/// The entries in ascending order of offset. Each entry in turn, from the
/// first, takes its place among those before it, so that entries of which
/// neither is less than the other keep their order.
pub open spec fn sorted_by_offset(store: Seq<Entry>) -> Seq<Entry>
    decreases store.len(),
{
    if store.len() == 0 {
        store
    } else {
        insert_by_offset(sorted_by_offset(store.drop_last()), store.last())
    }
}

/// The entries whose name no earlier entry bears, in their order.
pub open spec fn deduped_by_name(store: Seq<Entry>) -> Seq<Entry>
    decreases store.len(),
{
    if store.len() == 0 {
        store
    } else if has_name(store.drop_last(), store.last().name) {
        deduped_by_name(store.drop_last())
    } else {
        deduped_by_name(store.drop_last()).push(store.last())
    }
}

/// The store after a bookmark was added or updated: the offset is set or the
/// entry appended, the entries are put in order, and of the entries that
/// share a name the first is kept.
pub open spec fn added(store: Seq<Entry>, name: Seq<char>, offset: u64) -> Seq<Entry> {
    deduped_by_name(sorted_by_offset(upserted(store, name, offset)))
}

/// What an operation asks of its caller, as entries.
pub struct OutcomeView {
    /// The entries to write over the backing file, where it is to be
    /// rewritten.
    pub rewrite: Option<Seq<Entry>>,
    /// The entry to report.
    pub record: Option<Entry>,
}

/// Adding or updating a bookmark rewrites the file with the store after the
/// addition and reports nothing.
pub open spec fn add_outcome(store: Seq<Entry>, name: Seq<char>, offset: u64) -> OutcomeView {
    OutcomeView { rewrite: Some(added(store, name, offset)), record: None }
}

/// Removing a bookmark rewrites the file without the first entry of the name
/// and reports that entry. Where no entry bears the name, it leaves the file
/// alone and reports nothing.
pub open spec fn remove_outcome(store: Seq<Entry>, name: Seq<char>) -> OutcomeView {
    if has_name(store, name) {
        OutcomeView { rewrite: Some(removed(store, name)), record: found(store, name) }
    } else {
        OutcomeView { rewrite: None, record: None }
    }
}

/// Querying a bookmark leaves the file alone and reports the first entry of
/// the name, if there is one.
pub open spec fn query_outcome(store: Seq<Entry>, name: Seq<char>) -> OutcomeView {
    OutcomeView { rewrite: None, record: found(store, name) }
}

/// What the backing file holds once the caller has done what the outcome
/// asks, given what it held before.
pub open spec fn store_after(store: Seq<Entry>, outcome: OutcomeView) -> Seq<Entry> {
    match outcome.rewrite {
        Some(rewritten) => rewritten,
        None => store,
    }
}

/// No two entries share a name.
pub open spec fn unique_names(store: Seq<Entry>) -> bool {
    forall|i: int, j: int|
        0 <= i < j < store.len() ==> (#[trigger] store[i]).name != (#[trigger] store[j]).name
}

/// At most one entry bears the name.
pub open spec fn at_most_one_named(store: Seq<Entry>, name: Seq<char>) -> bool {
    forall|i: int, j: int|
        0 <= i < store.len() && 0 <= j < store.len() && (#[trigger] store[i]).name == name && (
        #[trigger] store[j]).name == name ==> i == j
}

/// No entry is followed, at any distance, by one of strictly lesser offset.
pub open spec fn ascending(store: Seq<Entry>) -> bool {
    forall|i: int, j: int|
        0 <= i < j < store.len() ==> !precedes(
            (#[trigger] store[j]).offset,
            (#[trigger] store[i]).offset,
        )
}

/// No entry is followed directly by one of strictly lesser offset.
pub open spec fn stepwise_ascending(store: Seq<Entry>) -> bool {
    forall|i: int|
        0 <= i && i + 1 < store.len() ==> !precedes(
            store[i + 1].offset,
            (#[trigger] store[i]).offset,
        )
}

/// What the backing file is meant to hold: entries in ascending order of
/// offset, no two of the same name.
pub open spec fn well_formed(store: Seq<Entry>) -> bool {
    unique_names(store) && ascending(store)
}

/// Every offset is a number.
pub open spec fn all_numbers(store: Seq<Entry>) -> bool {
    forall|i: int| 0 <= i < store.len() ==> !is_nan((#[trigger] store[i]).offset)
}

/// The first entry of a name exists and is unique.
pub proof fn lemma_first_named(store: Seq<Entry>, name: Seq<char>)
    ensures
        is_first_named(store, name, first_named(store, name)),
        forall|index: int| is_first_named(store, name, index) ==> index == first_named(store, name),
        has_name(store, name) <==> exists|i: int|
            0 <= i < store.len() && (#[trigger] store[i]).name == name,
    decreases store.len(),
{
    if store.len() == 0 {
        assert(is_first_named(store, name, 0));
    } else {
        let front = store.drop_last();
        lemma_first_named(front, name);
        let before = first_named(front, name);
        if before < front.len() {
            assert(store[before] == front[before]);
            assert forall|i: int| 0 <= i < before implies (#[trigger] store[i]).name != name by {
                assert(store[i] == front[i]);
            }
            assert(is_first_named(store, name, before));
        } else {
            assert forall|i: int| 0 <= i < front.len() implies (#[trigger] store[i]).name
                != name by {
                assert(store[i] == front[i]);
            }
            if store.last().name == name {
                assert(is_first_named(store, name, store.len() - 1));
            } else {
                assert(is_first_named(store, name, store.len() as int));
            }
        }
    }
    let first = first_named(store, name);
    assert forall|index: int| is_first_named(store, name, index) implies index == first by {
        if index < first {
            assert(store[index].name == name);
        } else if first < index {
            assert(store[first].name == name);
        }
    }
    if first < store.len() {
        assert(store[first].name == name);
    }
}

/// An entry at the end bears a name, or an entry before it does.
pub proof fn lemma_has_name_push(store: Seq<Entry>, entry: Entry, name: Seq<char>)
    ensures
        has_name(store.push(entry), name) <==> has_name(store, name) || entry.name == name,
        has_name(store, name) ==> first_named(store.push(entry), name) == first_named(store, name),
        !has_name(store, name) && entry.name == name ==> first_named(store.push(entry), name)
            == store.len(),
{
    let longer = store.push(entry);
    lemma_first_named(store, name);
    lemma_first_named(longer, name);
    let first = first_named(store, name);
    if has_name(store, name) {
        assert(longer[first] == store[first]);
        assert forall|i: int| 0 <= i < first implies (#[trigger] longer[i]).name != name by {
            assert(longer[i] == store[i]);
        }
        assert(is_first_named(longer, name, first));
    } else if entry.name == name {
        assert(longer[store.len() as int].name == name);
        assert forall|i: int| 0 <= i < store.len() implies (#[trigger] longer[i]).name != name by {
            assert(longer[i] == store[i]);
        }
        assert(is_first_named(longer, name, store.len() as int));
    } else {
        assert forall|i: int| 0 <= i < longer.len() implies (#[trigger] longer[i]).name
            != name by {
            if i < store.len() {
                assert(longer[i] == store[i]);
            }
        }
    }
}

/// Dropping later entries of a name leaves the names that occur as they
/// were.
pub proof fn lemma_dedup_names(store: Seq<Entry>, name: Seq<char>)
    ensures
        has_name(deduped_by_name(store), name) <==> has_name(store, name),
    decreases store.len(),
{
    if store.len() > 0 {
        let front = store.drop_last();
        let last = store.last();
        assert(store =~= front.push(last));
        lemma_dedup_names(front, name);
        lemma_dedup_names(front, last.name);
        lemma_has_name_push(front, last, name);
        lemma_has_name_push(deduped_by_name(front), last, name);
    }
}

} // verus!
