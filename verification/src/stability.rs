//! Sorting by offset is the stable sort: it rearranges the entries, swaps
//! two of them only where the later is strictly less than the earlier, and
//! is the only ascending arrangement that does so.

use crate::bookmark::Entry;
use crate::lemmas::lemma_insert_at;
use crate::lemmas::lemma_insert_place;
use crate::model::ascending;
use crate::model::sorted_by_offset;
use crate::offset::precedes;
use vstd::prelude::*;

verus! {

/// Whether `arranged` holds the entries of `store` in another order, each
/// once, where `origin` tells for each place of `arranged` the place of
/// `store` that its entry came from.
pub open spec fn is_rearrangement(
    store: Seq<Entry>,
    arranged: Seq<Entry>,
    origin: Seq<int>,
) -> bool {
    &&& arranged.len() == store.len()
    &&& origin.len() == store.len()
    &&& forall|k: int|
        0 <= k < origin.len() ==> 0 <= #[trigger] origin[k] < store.len() && arranged[k]
            == store[origin[k]]
    &&& forall|k: int, l: int|
        0 <= k < l < origin.len() ==> #[trigger] origin[k] != #[trigger] origin[l]
    &&& forall|i: int| 0 <= i < store.len() ==> #[trigger] origin.contains(i)
}

/// Whether two entries have changed their order only where the one that now
/// comes first is strictly less than the other.
pub open spec fn keeps_ties(arranged: Seq<Entry>, origin: Seq<int>) -> bool {
    forall|k: int, l: int|
        0 <= k < l < origin.len() && #[trigger] origin[k] > #[trigger] origin[l] ==> precedes(
            arranged[k].offset,
            arranged[l].offset,
        )
}

/// Sorting rearranges the entries and keeps the order of any two of which
/// the later is not strictly less than the earlier. The result tells where
/// each entry came from.
pub proof fn lemma_sorted_stable(store: Seq<Entry>) -> (origin: Seq<int>)
    ensures
        is_rearrangement(store, sorted_by_offset(store), origin),
        keeps_ties(sorted_by_offset(store), origin),
    decreases store.len(),
{
    if store.len() == 0 {
        Seq::empty()
    } else {
        let front = store.drop_last();
        let last = store.last();
        let moved = store.len() - 1;
        let before = lemma_sorted_stable(front);
        let ordered = sorted_by_offset(front);
        let place = lemma_insert_place(ordered, last);
        let sorted = ordered.insert(place, last);
        let origin = before.insert(place, moved);
        ordered.insert_ensures(place, last);
        before.insert_ensures(place, moved);
        assert forall|k: int| 0 <= k < origin.len() implies 0 <= #[trigger] origin[k] < store.len()
            && sorted[k] == store[origin[k]] by {
            if k < place {
                assert(origin[k] == before[k]);
                assert(store[before[k]] == front[before[k]]);
            } else if k > place {
                assert(origin[k - 1 + 1] == before[k - 1]);
                assert(sorted[k - 1 + 1] == ordered[k - 1]);
                assert(store[before[k - 1]] == front[before[k - 1]]);
            }
        }
        assert forall|k: int, l: int| 0 <= k < l < origin.len() implies #[trigger] origin[k]
            != #[trigger] origin[l] && (origin[k] > origin[l] ==> precedes(
            sorted[k].offset,
            sorted[l].offset,
        )) by {
            let a = if k < place { k } else { k - 1 };
            let b = if l < place { l } else { l - 1 };
            if k != place {
                assert(origin[k] == before[a]);
                assert(sorted[k] == ordered[a]);
            }
            if l != place {
                assert(origin[l] == before[b]);
                assert(sorted[l] == ordered[b]);
            }
        }
        assert forall|i: int| 0 <= i < store.len() implies #[trigger] origin.contains(i) by {
            if i == moved {
                assert(origin[place] == i);
            } else {
                assert(before.contains(i));
                let k = choose|k: int| 0 <= k < before.len() && before[k] == i;
                if k < place {
                    assert(origin[k] == i);
                } else {
                    assert(origin[k + 1] == i);
                }
            }
        }
        origin
    }
}

/// An ascending arrangement of the entries that keeps the order of any two
/// of which the later is not strictly less than the earlier is the one that
/// sorting gives.
pub proof fn lemma_stable_is_sorted(store: Seq<Entry>, arranged: Seq<Entry>, origin: Seq<int>)
    requires
        is_rearrangement(store, arranged, origin),
        keeps_ties(arranged, origin),
        ascending(arranged),
    ensures
        arranged == sorted_by_offset(store),
    decreases store.len(),
{
    if store.len() == 0 {
        assert(arranged =~= sorted_by_offset(store));
    } else {
        let front = store.drop_last();
        let last = store.last();
        let moved = store.len() - 1;
        assert(origin.contains(moved));
        let place = choose|k: int| 0 <= k < origin.len() && origin[k] == moved;
        let rest = arranged.remove(place);
        let before = origin.remove(place);
        assert forall|k: int| 0 <= k < before.len() implies 0 <= #[trigger] before[k] < front.len()
            && rest[k] == front[before[k]] by {
            let a = if k < place { k } else { k + 1 };
            assert(before[k] == origin[a]);
            assert(rest[k] == arranged[a]);
            assert(origin[a] != origin[place]);
        }
        assert forall|k: int, l: int| 0 <= k < l < before.len() implies #[trigger] before[k]
            != #[trigger] before[l] && (before[k] > before[l] ==> precedes(
            rest[k].offset,
            rest[l].offset,
        )) && !precedes(rest[l].offset, rest[k].offset) by {
            let a = if k < place { k } else { k + 1 };
            let b = if l < place { l } else { l + 1 };
            assert(before[k] == origin[a] && before[l] == origin[b]);
            assert(rest[k] == arranged[a] && rest[l] == arranged[b]);
        }
        assert forall|i: int| 0 <= i < front.len() implies #[trigger] before.contains(i) by {
            assert(origin.contains(i));
            let k = choose|k: int| 0 <= k < origin.len() && origin[k] == i;
            if k < place {
                assert(before[k] == i);
            } else {
                assert(before[k - 1] == i);
            }
        }
        lemma_stable_is_sorted(front, rest, before);
        assert(arranged[place] == last);
        assert forall|i: int| place <= i < rest.len() implies precedes(
            last.offset,
            (#[trigger] rest[i]).offset,
        ) by {
            assert(rest[i] == arranged[i + 1]);
            assert(origin[place] > origin[i + 1]);
        }
        if place > 0 {
            assert(rest[place - 1] == arranged[place - 1]);
        }
        lemma_insert_at(rest, last, place);
        assert(rest.insert(place, last) =~= arranged);
    }
}

} // verus!
