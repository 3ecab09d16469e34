//! What holds of the steps that an addition is made of: setting an offset,
//! putting the entries in order, and keeping the first entry of each name.

use crate::bookmark::Entry;
use crate::model::all_numbers;
use crate::model::ascending;
use crate::model::at_most_one_named;
use crate::model::deduped_by_name;
use crate::model::first_named;
use crate::model::found;
use crate::model::has_name;
use crate::model::insert_by_offset;
use crate::model::is_first_named;
use crate::model::lemma_dedup_names;
use crate::model::lemma_first_named;
use crate::model::lemma_has_name_push;
use crate::model::sorted_by_offset;
use crate::model::stepwise_ascending;
use crate::model::unique_names;
use crate::model::upserted;
use crate::offset::is_nan;
use crate::offset::precedes;
use vstd::prelude::*;

verus! {

/// The place that `insert_by_offset` gives an entry: behind the last entry
/// that it does not pass.
pub proof fn lemma_insert_at(store: Seq<Entry>, entry: Entry, place: int)
    requires
        0 <= place <= store.len(),
        forall|i: int|
            place <= i < store.len() ==> precedes(entry.offset, (#[trigger] store[i]).offset),
        place > 0 ==> !precedes(entry.offset, store[place - 1].offset),
    ensures
        insert_by_offset(store, entry) == store.insert(place, entry),
    decreases store.len(),
{
    if store.len() > 0 && precedes(entry.offset, store.last().offset) {
        assert(place < store.len());
        let front = store.drop_last();
        assert forall|i: int| place <= i < front.len() implies precedes(
            entry.offset,
            (#[trigger] front[i]).offset,
        ) by {
            assert(front[i] == store[i]);
        }
        lemma_insert_at(front, entry, place);
        assert(front.insert(place, entry).push(store.last()) =~= store.insert(place, entry));
    } else {
        if place < store.len() {
            assert(precedes(entry.offset, store[store.len() - 1].offset));
        }
        assert(store.push(entry) =~= store.insert(place, entry));
    }
}

/// Where `insert_by_offset` puts an entry.
pub proof fn lemma_insert_place(store: Seq<Entry>, entry: Entry) -> (place: int)
    ensures
        0 <= place <= store.len(),
        forall|i: int|
            place <= i < store.len() ==> precedes(entry.offset, (#[trigger] store[i]).offset),
        place > 0 ==> !precedes(entry.offset, store[place - 1].offset),
        insert_by_offset(store, entry) == store.insert(place, entry),
    decreases store.len(),
{
    let place = if store.len() > 0 && precedes(entry.offset, store.last().offset) {
        let front = store.drop_last();
        let place = lemma_insert_place(front, entry);
        assert forall|i: int| place <= i < store.len() implies precedes(
            entry.offset,
            (#[trigger] store[i]).offset,
        ) by {
            if i < front.len() {
                assert(store[i] == front[i]);
            }
        }
        if place > 0 {
            assert(store[place - 1] == front[place - 1]);
        }
        place
    } else {
        store.len() as int
    };
    lemma_insert_at(store, entry, place);
    place
}

/// Putting the entries in order loses none, adds none and repeats none.
pub proof fn lemma_sorted_permutes(store: Seq<Entry>)
    ensures
        sorted_by_offset(store).to_multiset() == store.to_multiset(),
        sorted_by_offset(store).len() == store.len(),
        forall|entry: Entry| sorted_by_offset(store).contains(entry) <==> store.contains(entry),
    decreases store.len(),
{
    broadcast use vstd::seq_lib::group_to_multiset_ensures;

    if store.len() > 0 {
        let front = store.drop_last();
        let last = store.last();
        lemma_sorted_permutes(front);
        let place = lemma_insert_place(sorted_by_offset(front), last);
        vstd::seq_lib::to_multiset_insert(sorted_by_offset(front), place, last);
        assert(store =~= front.push(last));
    }
    let sorted = sorted_by_offset(store);
    assert forall|entry: Entry| sorted.contains(entry) <==> store.contains(entry) by {
        assert(sorted.to_multiset().count(entry) == store.to_multiset().count(entry));
    }
}

/// Putting the entries in order leaves the names that occur as they were.
pub proof fn lemma_sorted_names(store: Seq<Entry>, name: Seq<char>)
    ensures
        has_name(sorted_by_offset(store), name) <==> has_name(store, name),
{
    let sorted = sorted_by_offset(store);
    lemma_sorted_permutes(store);
    lemma_first_named(store, name);
    lemma_first_named(sorted, name);
    if has_name(store, name) {
        let entry = store[first_named(store, name)];
        assert(store.contains(entry));
        assert(sorted.contains(entry));
        let i = choose|i: int| 0 <= i < sorted.len() && sorted[i] == entry;
        assert(sorted[i].name == name);
    }
    if has_name(sorted, name) {
        let entry = sorted[first_named(sorted, name)];
        assert(sorted.contains(entry));
        assert(store.contains(entry));
        let i = choose|i: int| 0 <= i < store.len() && store[i] == entry;
        assert(store[i].name == name);
    }
}

/// Entries of distinct names have distinct names in any order.
pub proof fn lemma_sorted_unique(store: Seq<Entry>)
    requires
        unique_names(store),
    ensures
        unique_names(sorted_by_offset(store)),
    decreases store.len(),
{
    if store.len() > 0 {
        let front = store.drop_last();
        let last = store.last();
        assert(unique_names(front)) by {
            assert forall|i: int, j: int| 0 <= i < j < front.len() implies (#[trigger] front[i]).name
                != (#[trigger] front[j]).name by {
                assert(front[i] == store[i] && front[j] == store[j]);
            }
        }
        lemma_sorted_unique(front);
        let ordered = sorted_by_offset(front);
        lemma_first_named(front, last.name);
        assert(!has_name(front, last.name)) by {
            if has_name(front, last.name) {
                let i = first_named(front, last.name);
                assert(front[i] == store[i]);
                assert(store[i].name != store[store.len() - 1].name);
            }
        }
        lemma_sorted_names(front, last.name);
        lemma_first_named(ordered, last.name);
        let place = lemma_insert_place(ordered, last);
        ordered.insert_ensures(place, last);
        let sorted = ordered.insert(place, last);
        assert forall|i: int, j: int| 0 <= i < j < sorted.len() implies (#[trigger] sorted[i]).name
            != (#[trigger] sorted[j]).name by {
            let a = if i < place { i } else { i - 1 };
            let b = if j < place { j } else { j - 1 };
            if i != place {
                assert(sorted[i] == ordered[a]);
            }
            if j != place {
                assert(sorted[j] == ordered[b]);
            }
        }
    }
}

/// In the order that sorting gives, no entry is followed directly by one of
/// strictly lesser offset.
pub proof fn lemma_sorted_stepwise(store: Seq<Entry>)
    ensures
        stepwise_ascending(sorted_by_offset(store)),
    decreases store.len(),
{
    if store.len() > 0 {
        let front = store.drop_last();
        let last = store.last();
        lemma_sorted_stepwise(front);
        let ordered = sorted_by_offset(front);
        let place = lemma_insert_place(ordered, last);
        ordered.insert_ensures(place, last);
        let sorted = ordered.insert(place, last);
        assert forall|i: int| 0 <= i && i + 1 < sorted.len() implies !precedes(
            sorted[i + 1].offset,
            (#[trigger] sorted[i]).offset,
        ) by {
            if i + 1 < place {
                assert(sorted[i] == ordered[i]);
                assert(sorted[i + 1] == ordered[i + 1]);
            } else if i + 1 == place {
                assert(sorted[i] == ordered[place - 1]);
            } else if i == place {
                assert(sorted[i + 1] == ordered[place]);
            } else {
                assert(sorted[i] == ordered[i - 1]);
                assert(sorted[i + 1] == ordered[i - 1 + 1]);
            }
        }
    }
}

/// Where every offset is a number, sorting gives an order in which no entry
/// is followed, at any distance, by one of strictly lesser offset.
pub proof fn lemma_sorted_ascending(store: Seq<Entry>)
    requires
        all_numbers(store),
    ensures
        ascending(sorted_by_offset(store)),
        all_numbers(sorted_by_offset(store)),
    decreases store.len(),
{
    if store.len() > 0 {
        let front = store.drop_last();
        let last = store.last();
        assert(all_numbers(front)) by {
            assert forall|i: int| 0 <= i < front.len() implies !is_nan(
                (#[trigger] front[i]).offset,
            ) by {
                assert(front[i] == store[i]);
            }
        }
        lemma_sorted_ascending(front);
        let ordered = sorted_by_offset(front);
        let place = lemma_insert_place(ordered, last);
        ordered.insert_ensures(place, last);
        let sorted = ordered.insert(place, last);
        assert forall|i: int| 0 <= i < sorted.len() implies !is_nan(
            (#[trigger] sorted[i]).offset,
        ) by {
            if i < place {
                assert(sorted[i] == ordered[i]);
            } else if i > place {
                assert(sorted[i] == ordered[i - 1]);
                assert(sorted[i - 1 + 1] == ordered[i - 1]);
            }
        }
        assert forall|i: int, j: int| 0 <= i < j < sorted.len() implies !precedes(
            (#[trigger] sorted[j]).offset,
            (#[trigger] sorted[i]).offset,
        ) by {
            if j < place {
                assert(sorted[i] == ordered[i] && sorted[j] == ordered[j]);
            } else if j == place {
                assert(sorted[i] == ordered[i]);
                if i < place - 1 {
                    assert(!precedes(ordered[place - 1].offset, ordered[i].offset));
                }
            } else if i == place {
                assert(sorted[j - 1 + 1] == ordered[j - 1]);
            } else if i < place {
                assert(sorted[i] == ordered[i]);
                assert(sorted[j - 1 + 1] == ordered[j - 1]);
            } else {
                assert(sorted[i - 1 + 1] == ordered[i - 1]);
                assert(sorted[j - 1 + 1] == ordered[j - 1]);
            }
        }
    }
}

/// Sorting leaves alone a sequence in which no entry is followed directly by
/// one of strictly lesser offset.
pub proof fn lemma_sorted_fixed(store: Seq<Entry>)
    requires
        stepwise_ascending(store),
    ensures
        sorted_by_offset(store) == store,
    decreases store.len(),
{
    if store.len() > 0 {
        let front = store.drop_last();
        assert(stepwise_ascending(front)) by {
            assert forall|i: int| 0 <= i && i + 1 < front.len() implies !precedes(
                front[i + 1].offset,
                (#[trigger] front[i]).offset,
            ) by {
                assert(front[i] == store[i] && front[i + 1] == store[i + 1]);
            }
        }
        lemma_sorted_fixed(front);
        if front.len() > 0 {
            assert(front.last() == store[store.len() - 2]);
            assert(store.last() == store[store.len() - 2 + 1]);
        }
        assert(front.push(store.last()) =~= store);
    }
}

/// Of the entries that are kept, no two share a name.
pub proof fn lemma_deduped_unique(store: Seq<Entry>)
    ensures
        unique_names(deduped_by_name(store)),
    decreases store.len(),
{
    if store.len() > 0 {
        let front = store.drop_last();
        let last = store.last();
        let kept = deduped_by_name(front);
        lemma_deduped_unique(front);
        if !has_name(front, last.name) {
            lemma_dedup_names(front, last.name);
            lemma_first_named(kept, last.name);
            let longer = kept.push(last);
            assert forall|i: int, j: int| 0 <= i < j < longer.len() implies (
            #[trigger] longer[i]).name != (#[trigger] longer[j]).name by {
                assert(longer[i] == kept[i]);
                if j < kept.len() {
                    assert(longer[j] == kept[j]);
                }
            }
        }
    }
}

/// Every entry that is kept is an entry of the store.
pub proof fn lemma_deduped_within(store: Seq<Entry>)
    ensures
        forall|i: int|
            0 <= i < deduped_by_name(store).len() ==> store.contains(
                #[trigger] deduped_by_name(store)[i],
            ),
        deduped_by_name(store).len() <= store.len(),
    decreases store.len(),
{
    if store.len() > 0 {
        let front = store.drop_last();
        let last = store.last();
        let kept = deduped_by_name(front);
        lemma_deduped_within(front);
        let all = deduped_by_name(store);
        assert forall|i: int| 0 <= i < all.len() implies store.contains(#[trigger] all[i]) by {
            if i < kept.len() {
                assert(all[i] == kept[i]);
                assert(front.contains(kept[i]));
                let k = choose|k: int| 0 <= k < front.len() && front[k] == kept[i];
                assert(store[k] == all[i]);
            } else {
                assert(store[store.len() - 1] == all[i]);
            }
        }
    }
}

/// Keeping the first entry of each name leaves an ascending order
/// ascending.
pub proof fn lemma_deduped_ascending(store: Seq<Entry>)
    requires
        ascending(store),
    ensures
        ascending(deduped_by_name(store)),
    decreases store.len(),
{
    if store.len() > 0 {
        let front = store.drop_last();
        let last = store.last();
        let kept = deduped_by_name(front);
        assert(ascending(front)) by {
            assert forall|i: int, j: int| 0 <= i < j < front.len() implies !precedes(
                (#[trigger] front[j]).offset,
                (#[trigger] front[i]).offset,
            ) by {
                assert(front[i] == store[i] && front[j] == store[j]);
            }
        }
        lemma_deduped_ascending(front);
        lemma_deduped_within(front);
        let all = deduped_by_name(store);
        assert forall|i: int, j: int| 0 <= i < j < all.len() implies !precedes(
            (#[trigger] all[j]).offset,
            (#[trigger] all[i]).offset,
        ) by {
            assert(all[i] == kept[i]);
            if j < kept.len() {
                assert(all[j] == kept[j]);
            } else {
                assert(front.contains(kept[i]));
                let k = choose|k: int| 0 <= k < front.len() && front[k] == kept[i];
                assert(store[k] == all[i]);
                assert(store[store.len() - 1] == all[j]);
            }
        }
    }
}

/// Where no two entries share a name, every entry is kept.
pub proof fn lemma_deduped_fixed(store: Seq<Entry>)
    requires
        unique_names(store),
    ensures
        deduped_by_name(store) == store,
    decreases store.len(),
{
    if store.len() > 0 {
        let front = store.drop_last();
        let last = store.last();
        assert(unique_names(front)) by {
            assert forall|i: int, j: int| 0 <= i < j < front.len() implies (#[trigger] front[i]).name
                != (#[trigger] front[j]).name by {
                assert(front[i] == store[i] && front[j] == store[j]);
            }
        }
        lemma_deduped_fixed(front);
        lemma_first_named(front, last.name);
        if has_name(front, last.name) {
            let i = first_named(front, last.name);
            assert(front[i] == store[i]);
            assert(store[i].name != store[store.len() - 1].name);
        }
        assert(front.push(last) =~= store);
    }
}

/// The first entry of each name is kept: a search by name finds in what is
/// kept the entry that it finds in the store.
pub proof fn lemma_deduped_found(store: Seq<Entry>, name: Seq<char>)
    ensures
        found(deduped_by_name(store), name) == found(store, name),
    decreases store.len(),
{
    if store.len() > 0 {
        let front = store.drop_last();
        let last = store.last();
        let kept = deduped_by_name(front);
        assert(store =~= front.push(last));
        lemma_deduped_found(front, name);
        lemma_dedup_names(front, name);
        lemma_dedup_names(front, last.name);
        lemma_has_name_push(front, last, name);
        lemma_has_name_push(kept, last, name);
        lemma_first_named(front, name);
        lemma_first_named(kept, name);
        if has_name(front, name) {
            assert(store[first_named(front, name)] == front[first_named(front, name)]);
        }
    }
}

/// After an offset was set for a name, a search for the name finds the
/// name with that offset.
pub proof fn lemma_upserted_found(store: Seq<Entry>, name: Seq<char>, offset: u64)
    ensures
        found(upserted(store, name, offset), name) == Some(Entry { name, offset }),
{
    let entry = Entry { name, offset };
    let changed = upserted(store, name, offset);
    lemma_first_named(store, name);
    lemma_first_named(changed, name);
    let first = first_named(store, name);
    if has_name(store, name) {
        assert(changed[first] == entry);
        assert forall|i: int| 0 <= i < first implies (#[trigger] changed[i]).name != name by {
            assert(changed[i] == store[i]);
        }
        assert(is_first_named(changed, name, first));
    } else {
        lemma_has_name_push(store, entry, name);
    }
}

/// Setting an offset for a name gives no name to a second entry.
pub proof fn lemma_upserted_unique(store: Seq<Entry>, name: Seq<char>, offset: u64)
    requires
        unique_names(store),
    ensures
        unique_names(upserted(store, name, offset)),
{
    let changed = upserted(store, name, offset);
    lemma_first_named(store, name);
    let first = first_named(store, name);
    assert forall|i: int, j: int| 0 <= i < j < changed.len() implies (#[trigger] changed[i]).name
        != (#[trigger] changed[j]).name by {
        if has_name(store, name) {
            assert(changed[i].name == store[i].name);
            assert(changed[j].name == store[j].name);
        } else {
            assert(changed[i] == store[i]);
            if j < store.len() {
                assert(changed[j] == store[j]);
            }
        }
    }
}

/// Setting an offset that is a number leaves every offset a number.
pub proof fn lemma_upserted_numbers(store: Seq<Entry>, name: Seq<char>, offset: u64)
    requires
        all_numbers(store),
        !is_nan(offset),
    ensures
        all_numbers(upserted(store, name, offset)),
{
    let changed = upserted(store, name, offset);
    lemma_first_named(store, name);
    let first = first_named(store, name);
    assert forall|i: int| 0 <= i < changed.len() implies !is_nan((#[trigger] changed[i]).offset) by {
        if i < store.len() && !(has_name(store, name) && i == first) {
            assert(changed[i] == store[i]);
        }
    }
}

/// Where at most one entry bore the name, every entry that bears it after
/// the offset was set holds that offset.
pub proof fn lemma_upserted_sole(store: Seq<Entry>, name: Seq<char>, offset: u64)
    requires
        at_most_one_named(store, name),
    ensures
        forall|i: int|
            0 <= i < upserted(store, name, offset).len() && (#[trigger] upserted(
                store,
                name,
                offset,
            )[i]).name == name ==> upserted(store, name, offset)[i] == (Entry { name, offset }),
{
    let changed = upserted(store, name, offset);
    lemma_first_named(store, name);
    let first = first_named(store, name);
    assert forall|i: int| 0 <= i < changed.len() && (#[trigger] changed[i]).name == name implies changed[i]
        == (Entry { name, offset }) by {
        if has_name(store, name) {
            if i != first {
                assert(changed[i] == store[i]);
                assert(store[first].name == name);
            }
        } else if i < store.len() {
            assert(changed[i] == store[i]);
        }
    }
}

/// Setting the offset that the first entry of the name holds changes
/// nothing.
pub proof fn lemma_upserted_fixed(store: Seq<Entry>, name: Seq<char>, offset: u64)
    requires
        found(store, name) == Some(Entry { name, offset }),
    ensures
        upserted(store, name, offset) == store,
{
    lemma_first_named(store, name);
    let first = first_named(store, name);
    assert(store[first] == (Entry { name, offset }));
    assert(store.update(first, Entry { name, offset }) =~= store);
}

} // verus!
