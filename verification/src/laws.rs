//! What holds of the operations of the store, whatever the store and the
//! arguments.

use crate::bookmark::Entry;
use crate::lemmas::lemma_deduped_ascending;
use crate::lemmas::lemma_deduped_fixed;
use crate::lemmas::lemma_deduped_found;
use crate::lemmas::lemma_deduped_unique;
use crate::lemmas::lemma_sorted_ascending;
use crate::lemmas::lemma_sorted_fixed;
use crate::lemmas::lemma_sorted_names;
use crate::lemmas::lemma_sorted_permutes;
use crate::lemmas::lemma_sorted_stepwise;
use crate::lemmas::lemma_sorted_unique;
use crate::lemmas::lemma_upserted_fixed;
use crate::lemmas::lemma_upserted_found;
use crate::lemmas::lemma_upserted_numbers;
use crate::lemmas::lemma_upserted_sole;
use crate::lemmas::lemma_upserted_unique;
use crate::model::added;
use crate::model::all_numbers;
use crate::model::ascending;
use crate::model::at_most_one_named;
use crate::model::first_named;
use crate::model::found;
use crate::model::has_name;
use crate::model::is_first_named;
use crate::model::lemma_first_named;
use crate::model::OutcomeView;
use crate::model::query_outcome;
use crate::model::remove_outcome;
use crate::model::removed;
use crate::model::sorted_by_offset;
use crate::model::stepwise_ascending;
use crate::model::store_after;
use crate::model::unique_names;
use crate::model::upserted;
use crate::model::well_formed;
use crate::offset::is_nan;
use crate::offset::precedes;
use vstd::prelude::*;

verus! {

/// After any addition no two entries of the store share a name.
pub proof fn lemma_added_unique(store: Seq<Entry>, name: Seq<char>, offset: u64)
    ensures
        unique_names(added(store, name, offset)),
{
    lemma_deduped_unique(sorted_by_offset(upserted(store, name, offset)));
}

/// Where every offset is a number once the offset of the addition is set,
/// the store is in ascending order of offset after the addition: no entry is
/// followed by one of strictly lesser offset.
pub proof fn lemma_added_ascending(store: Seq<Entry>, name: Seq<char>, offset: u64)
    requires
        all_numbers(upserted(store, name, offset)),
    ensures
        ascending(added(store, name, offset)),
{
    let changed = upserted(store, name, offset);
    lemma_sorted_ascending(changed);
    lemma_deduped_ascending(sorted_by_offset(changed));
}

/// Where every offset is a number once the offset of the addition is set,
/// the store is well formed after the addition, however it was before.
pub proof fn lemma_added_well_formed(store: Seq<Entry>, name: Seq<char>, offset: u64)
    requires
        all_numbers(upserted(store, name, offset)),
    ensures
        well_formed(added(store, name, offset)),
{
    lemma_added_unique(store, name, offset);
    lemma_added_ascending(store, name, offset);
}

/// Every offset is a number once the offset of an addition is set, where
/// every offset of the store is a number and the offset of the addition is
/// one.
pub proof fn lemma_added_numbers(store: Seq<Entry>, name: Seq<char>, offset: u64)
    requires
        all_numbers(store),
        !is_nan(offset),
    ensures
        all_numbers(upserted(store, name, offset)),
        ascending(added(store, name, offset)),
{
    lemma_upserted_numbers(store, name, offset);
    lemma_added_ascending(store, name, offset);
}

/// Where no two entries share a name, whatever the offsets are, no entry is
/// followed directly by one of strictly lesser offset after an addition.
pub proof fn lemma_added_stepwise(store: Seq<Entry>, name: Seq<char>, offset: u64)
    requires
        unique_names(store),
    ensures
        stepwise_ascending(added(store, name, offset)),
        added(store, name, offset) == sorted_by_offset(upserted(store, name, offset)),
{
    let changed = upserted(store, name, offset);
    lemma_upserted_unique(store, name, offset);
    lemma_sorted_unique(changed);
    lemma_sorted_stepwise(changed);
    lemma_deduped_fixed(sorted_by_offset(changed));
}

/// Where no two entries share a name, an addition keeps every entry but the
/// one whose offset it sets, and repeats none.
pub proof fn lemma_added_permutes(store: Seq<Entry>, name: Seq<char>, offset: u64)
    requires
        unique_names(store),
    ensures
        added(store, name, offset).to_multiset() == upserted(store, name, offset).to_multiset(),
{
    lemma_added_stepwise(store, name, offset);
    lemma_sorted_permutes(upserted(store, name, offset));
}

/// Where every entry of a name is the same entry, a search for the name
/// finds that entry after sorting as before.
proof fn lemma_sorted_sole(store: Seq<Entry>, name: Seq<char>, entry: Entry)
    requires
        forall|i: int|
            0 <= i < store.len() && (#[trigger] store[i]).name == name ==> store[i] == entry,
    ensures
        found(sorted_by_offset(store), name) == found(store, name),
{
    let sorted = sorted_by_offset(store);
    lemma_sorted_permutes(store);
    lemma_sorted_names(store, name);
    lemma_first_named(store, name);
    lemma_first_named(sorted, name);
    if has_name(sorted, name) {
        let hit = sorted[first_named(sorted, name)];
        assert(sorted.contains(hit));
        assert(store.contains(hit));
        let i = choose|i: int| 0 <= i < store.len() && store[i] == hit;
        assert(store[i].name == name);
    }
}

/// Where at most one entry bears a name, a search for the name after an
/// addition under that name finds the name with the offset that was given.
pub proof fn lemma_added_found(store: Seq<Entry>, name: Seq<char>, offset: u64)
    requires
        at_most_one_named(store, name),
    ensures
        found(added(store, name, offset), name) == Some(Entry { name, offset }),
{
    let changed = upserted(store, name, offset);
    lemma_upserted_sole(store, name, offset);
    lemma_upserted_found(store, name, offset);
    lemma_sorted_sole(changed, name, Entry { name, offset });
    lemma_deduped_found(sorted_by_offset(changed), name);
}

/// Where at most one entry bears a name, an addition leaves a search for
/// that name as it was, unless it is the name that the addition gives.
pub proof fn lemma_added_keeps_others(
    store: Seq<Entry>,
    name: Seq<char>,
    offset: u64,
    other: Seq<char>,
)
    requires
        at_most_one_named(store, other),
        other != name,
    ensures
        found(added(store, name, offset), other) == found(store, other),
{
    let changed = upserted(store, name, offset);
    lemma_first_named(store, name);
    lemma_first_named(store, other);
    lemma_first_named(changed, other);
    let first = first_named(store, other);
    assert forall|i: int| 0 <= i < store.len() && i != first_named(store, name) implies changed[i]
        == store[i] by {}
    if has_name(store, other) {
        assert(changed[first] == store[first]);
        assert forall|i: int| 0 <= i < first implies (#[trigger] changed[i]).name != other by {
            assert(changed[i].name == store[i].name);
        }
        assert(is_first_named(changed, other, first));
    } else {
        assert forall|i: int| 0 <= i < changed.len() implies (#[trigger] changed[i]).name
            != other by {
            if i < store.len() {
                assert(changed[i].name == store[i].name);
            }
        }
    }
    assert(found(changed, other) == found(store, other));
    let sole = store[first];
    assert forall|i: int| 0 <= i < changed.len() && (#[trigger] changed[i]).name
        == other implies changed[i] == sole by {
        assert(i < store.len());
        assert(changed[i].name == store[i].name);
        assert(store[first].name == other);
    }
    lemma_sorted_sole(changed, other, sole);
    lemma_deduped_found(sorted_by_offset(changed), other);
}

/// After the same bookmark was added twice in a row, a query for its name
/// reports the name with the offset that was given. So the second addition
/// leaves the answer to that query as the first addition left it exactly
/// where the first addition made it that.
pub proof fn lemma_add_again_found(store: Seq<Entry>, name: Seq<char>, offset: u64)
    ensures
        query_outcome(added(added(store, name, offset), name, offset), name).record == Some(
            Entry { name, offset },
        ),
        query_outcome(added(added(store, name, offset), name, offset), name) == query_outcome(
            added(store, name, offset),
            name,
        ) <==> query_outcome(added(store, name, offset), name).record == Some(
            Entry { name, offset },
        ),
{
    let once = added(store, name, offset);
    lemma_added_unique(store, name, offset);
    assert(at_most_one_named(once, name));
    lemma_added_found(once, name, offset);
}

/// Adding the same bookmark a second time leaves the answer to a query for
/// its name as the first addition left it, where at most one entry bore the
/// name to begin with.
pub proof fn lemma_add_again_same_answer(store: Seq<Entry>, name: Seq<char>, offset: u64)
    requires
        at_most_one_named(store, name),
    ensures
        query_outcome(added(added(store, name, offset), name, offset), name) == query_outcome(
            added(store, name, offset),
            name,
        ),
{
    lemma_added_found(store, name, offset);
    lemma_add_again_found(store, name, offset);
}

/// Adding the same bookmark a second time changes nothing, where no two
/// entries shared a name to begin with.
pub proof fn lemma_add_again(store: Seq<Entry>, name: Seq<char>, offset: u64)
    requires
        unique_names(store),
    ensures
        added(added(store, name, offset), name, offset) == added(store, name, offset),
{
    let once = added(store, name, offset);
    assert(at_most_one_named(store, name));
    lemma_added_found(store, name, offset);
    lemma_added_unique(store, name, offset);
    lemma_added_stepwise(store, name, offset);
    lemma_upserted_fixed(once, name, offset);
    lemma_sorted_fixed(once);
    lemma_deduped_fixed(once);
}

/// Removing the only entry of a store by its name leaves an empty store and
/// reports the entry.
pub proof fn lemma_remove_only(store: Seq<Entry>, name: Seq<char>)
    requires
        store.len() == 1,
        store[0].name == name,
    ensures
        remove_outcome(store, name) == (OutcomeView {
            rewrite: Some(Seq::empty()),
            record: Some(store[0]),
        }),
        store_after(store, remove_outcome(store, name)).len() == 0,
{
    lemma_first_named(store, name);
    assert(removed(store, name) =~= Seq::empty());
}

/// Removing by a name that no entry bears reports nothing and leaves the
/// file as it is.
pub proof fn lemma_remove_absent(store: Seq<Entry>, name: Seq<char>)
    requires
        !has_name(store, name),
    ensures
        remove_outcome(store, name) == (OutcomeView { rewrite: None, record: None }),
        store_after(store, remove_outcome(store, name)) == store,
{
}

/// Where exactly one entry bears a name, removing by the name reports that
/// entry and leaves a store in which no entry bears the name.
pub proof fn lemma_removed_gone(store: Seq<Entry>, name: Seq<char>)
    requires
        has_name(store, name),
        at_most_one_named(store, name),
    ensures
        remove_outcome(store, name).record == found(store, name),
        remove_outcome(store, name).rewrite == Some(removed(store, name)),
        removed(store, name).len() == store.len() - 1,
        !has_name(removed(store, name), name),
{
    lemma_first_named(store, name);
    let first = first_named(store, name);
    let rest = removed(store, name);
    lemma_first_named(rest, name);
    if has_name(rest, name) {
        let i = first_named(rest, name);
        if i < first {
            assert(rest[i] == store[i]);
        } else {
            assert(rest[i] == store[i + 1]);
        }
    }
}

/// Removing by one name leaves a search for any other name as it was.
pub proof fn lemma_removed_keeps_others(store: Seq<Entry>, name: Seq<char>, other: Seq<char>)
    requires
        other != name,
    ensures
        found(removed(store, name), other) == found(store, other),
{
    lemma_first_named(store, name);
    lemma_first_named(store, other);
    let gone = first_named(store, name);
    let first = first_named(store, other);
    let rest = removed(store, name);
    lemma_first_named(rest, other);
    if has_name(store, name) {
        let place = if first < gone { first } else { first - 1 };
        assert forall|i: int| 0 <= i < place implies (#[trigger] rest[i]).name != other by {
            if i < gone {
                assert(rest[i] == store[i]);
            } else {
                assert(rest[i] == store[i + 1]);
            }
        }
        if has_name(store, other) {
            assert(rest[place] == store[first]);
        }
        assert(is_first_named(rest, other, place));
    }
}

/// A removal leaves distinct names distinct and an ascending order
/// ascending: of a well-formed store it leaves a well-formed store.
pub proof fn lemma_removed_keeps_order(store: Seq<Entry>, name: Seq<char>)
    ensures
        unique_names(store) ==> unique_names(removed(store, name)),
        ascending(store) ==> ascending(removed(store, name)),
        well_formed(store) ==> well_formed(removed(store, name)),
{
    lemma_first_named(store, name);
    let gone = first_named(store, name);
    let rest = removed(store, name);
    if has_name(store, name) {
        assert forall|i: int| 0 <= i < rest.len() implies #[trigger] rest[i] == store[if i
            < gone {
            i
        } else {
            i + 1
        }] by {}
        if unique_names(store) {
            assert forall|i: int, j: int| 0 <= i < j < rest.len() implies (#[trigger] rest[i]).name
                != (#[trigger] rest[j]).name by {
                let a = if i < gone { i } else { i + 1 };
                let b = if j < gone { j } else { j + 1 };
                assert(rest[i] == store[a] && rest[j] == store[b]);
            }
        }
        if ascending(store) {
            assert forall|i: int, j: int| 0 <= i < j < rest.len() implies !precedes(
                (#[trigger] rest[j]).offset,
                (#[trigger] rest[i]).offset,
            ) by {
                let a = if i < gone { i } else { i + 1 };
                let b = if j < gone { j } else { j + 1 };
                assert(rest[i] == store[a] && rest[j] == store[b]);
            }
        }
    }
}

/// A query never asks for the file to be rewritten, whether it finds an
/// entry or not.
pub proof fn lemma_query_keeps_store(store: Seq<Entry>, name: Seq<char>)
    ensures
        query_outcome(store, name).rewrite is None,
        store_after(store, query_outcome(store, name)) == store,
{
}

} // verus!
