//! The operations of the store on a list of bookmarks.

use crate::bookmark::Bookmark;
use crate::bookmark::Entry;
use crate::error::ManagerError;
use crate::laws::lemma_added_ascending;
use crate::laws::lemma_added_unique;
use crate::lemmas::lemma_insert_at;
use crate::model::add_outcome;
use crate::model::all_numbers;
use crate::model::ascending;
use crate::model::deduped_by_name;
use crate::model::entries;
use crate::model::first_named;
use crate::model::has_name;
use crate::model::is_first_named;
use crate::model::lemma_dedup_names;
use crate::model::lemma_first_named;
use crate::model::OutcomeView;
use crate::model::query_outcome;
use crate::model::remove_outcome;
use crate::model::sorted_by_offset;
use crate::model::unique_names;
use crate::model::upserted;
use crate::offset::precedes;
use vstd::prelude::*;

verus! {

/// Finds the first bookmark of the given name among the first `end`
/// bookmarks of the list. Returns `end` where none of them bears the name.
fn position_within(bookmarks: &Vec<Bookmark>, end: usize, name: &String) -> (index: usize)
    requires
        end <= bookmarks.len(),
    ensures
        index == first_named(entries(bookmarks@).take(end as int), name@),
        index <= end,
{
    let ghost prefix = entries(bookmarks@).take(end as int);
    let mut index: usize = 0;
    while index < end && !bookmarks[index].is_named(name)
        invariant
            index <= end <= bookmarks.len(),
            prefix == entries(bookmarks@).take(end as int),
            forall|i: int| 0 <= i < index ==> (#[trigger] prefix[i]).name != name@,
        decreases end - index,
    {
        index += 1;
    }
    proof {
        assert(is_first_named(prefix, name@, index as int));
        lemma_first_named(prefix, name@);
    }
    index
}

/// Finds the first bookmark of the given name.
pub fn position(bookmarks: &Vec<Bookmark>, name: &String) -> (index: Option<usize>)
    ensures
        index is Some <==> has_name(entries(bookmarks@), name@),
        index is Some ==> index->0 == first_named(entries(bookmarks@), name@),
{
    let index = position_within(bookmarks, bookmarks.len(), name);
    proof {
        assert(entries(bookmarks@).take(bookmarks.len() as int) =~= entries(bookmarks@));
    }
    if index < bookmarks.len() {
        Some(index)
    } else {
        None
    }
}

/// Puts the bookmarks in ascending order of offset. Bookmarks of which
/// neither is less than the other keep their order.
pub fn sort_by_offset(bookmarks: &mut Vec<Bookmark>)
    ensures
        entries(final(bookmarks)@) == sorted_by_offset(entries(old(bookmarks)@)),
{
    let ghost unsorted = entries(bookmarks@);
    let mut done: usize = 0;
    proof {
        assert(entries(bookmarks@).take(0) =~= sorted_by_offset(unsorted.take(0)));
    }
    while done < bookmarks.len()
        invariant
            done <= bookmarks.len(),
            bookmarks.len() == unsorted.len(),
            entries(bookmarks@).take(done as int) == sorted_by_offset(unsorted.take(done as int)),
            entries(bookmarks@).skip(done as int) == unsorted.skip(done as int),
        decreases bookmarks.len() - done,
    {
        let ghost before = entries(bookmarks@);
        let ghost ordered = before.take(done as int);
        let moved = bookmarks.remove(done);
        let mut place: usize = done;
        while place > 0 && moved.sorts_before(&bookmarks[place - 1])
            invariant
                place <= done < bookmarks.len() + 1,
                bookmarks.len() + 1 == unsorted.len(),
                entries(bookmarks@).take(done as int) == ordered,
                forall|i: int|
                    place <= i < done ==> precedes(moved@.offset, (#[trigger] ordered[i]).offset),
            decreases place,
        {
            proof {
                assert(ordered[place - 1] == entries(bookmarks@)[place - 1]);
            }
            place -= 1;
        }
        proof {
            if place > 0 {
                assert(ordered[place - 1] == entries(bookmarks@)[place - 1]);
            }
            assert(moved@ == before[done as int]);
            assert(before[done as int] == before.skip(done as int)[0]);
            assert(moved@ == unsorted[done as int]);
            lemma_insert_at(ordered, moved@, place as int);
            assert(unsorted.take(done + 1).drop_last() =~= unsorted.take(done as int));
            assert(unsorted.take(done + 1).last() == unsorted[done as int]);
        }
        let ghost rest = entries(bookmarks@).skip(done as int);
        bookmarks.insert(place, moved);
        proof {
            assert(entries(bookmarks@).take(done + 1) =~= ordered.insert(place as int, moved@));
            assert(entries(bookmarks@).skip(done + 1) =~= rest);
            assert(rest =~= unsorted.skip(done + 1)) by {
                assert(rest =~= before.skip(done as int).skip(1));
            }
        }
        done += 1;
    }
    proof {
        assert(entries(bookmarks@).take(done as int) =~= entries(bookmarks@));
        assert(unsorted.take(done as int) =~= unsorted);
    }
}

/// Drops each bookmark whose name an earlier bookmark bears.
pub fn dedup_by_name(bookmarks: &mut Vec<Bookmark>)
    ensures
        entries(final(bookmarks)@) == deduped_by_name(entries(old(bookmarks)@)),
{
    let ghost given = entries(bookmarks@);
    let ghost mut seen: int = 0;
    let mut kept: usize = 0;
    proof {
        assert(entries(bookmarks@).take(0) =~= deduped_by_name(given.take(0)));
        assert(entries(bookmarks@).skip(0) =~= given.skip(0));
    }
    while kept < bookmarks.len()
        invariant
            0 <= seen <= given.len(),
            kept <= bookmarks.len(),
            bookmarks.len() - kept == given.len() - seen,
            entries(bookmarks@).take(kept as int) == deduped_by_name(given.take(seen)),
            entries(bookmarks@).skip(kept as int) == given.skip(seen),
        decreases bookmarks.len() - kept,
    {
        let ghost before = entries(bookmarks@);
        let earlier = position_within(bookmarks, kept, &bookmarks[kept].name);
        proof {
            let next = given[seen];
            assert(before[kept as int] == before.skip(kept as int)[0]);
            assert(next == before[kept as int]);
            assert(given.take(seen + 1).drop_last() =~= given.take(seen));
            assert(given.take(seen + 1).last() == next);
            lemma_dedup_names(given.take(seen), next.name);
            assert(before.take(kept + 1) =~= before.take(kept as int).push(next));
            assert(given.skip(seen + 1) =~= given.skip(seen).skip(1));
        }
        if earlier < kept {
            bookmarks.remove(kept);
            proof {
                assert(entries(bookmarks@).take(kept as int) =~= before.take(kept as int));
                assert(entries(bookmarks@).skip(kept as int) =~= before.skip(kept as int).skip(1));
            }
        } else {
            proof {
                assert(before.skip(kept + 1) =~= before.skip(kept as int).skip(1));
            }
            kept += 1;
        }
        proof {
            seen = seen + 1;
        }
    }
    proof {
        assert(entries(bookmarks@).take(kept as int) =~= entries(bookmarks@));
        assert(given.take(seen) =~= given);
    }
}

/// Sets the offset of the first bookmark of the given name, or appends a
/// new bookmark where none bears the name.
pub fn upsert(bookmarks: &mut Vec<Bookmark>, name: String, offset: u64)
    ensures
        entries(final(bookmarks)@) == upserted(entries(old(bookmarks)@), name@, offset),
{
    let ghost before = entries(bookmarks@);
    match position(bookmarks, &name) {
        Some(index) => {
            bookmarks[index].offset = offset;
            proof {
                lemma_first_named(before, name@);
                assert(entries(bookmarks@) =~= before.update(
                    index as int,
                    Entry { name: name@, offset },
                ));
            }
        },
        None => {
            bookmarks.push(Bookmark::new(name, offset));
            proof {
                assert(entries(bookmarks@) =~= before.push(Entry { name: name@, offset }));
            }
        },
    }
}

/// What an operation asks of its caller.
#[derive(Debug)]
pub struct Outcome {
    /// The bookmarks to write over the backing file, where it is to be
    /// rewritten.
    pub rewrite: Option<Vec<Bookmark>>,
    /// The bookmark to report.
    pub record: Option<Bookmark>,
}

impl View for Outcome {
    type V = OutcomeView;

    open spec fn view(&self) -> OutcomeView {
        OutcomeView {
            rewrite: match self.rewrite {
                Some(bookmarks) => Some(entries(bookmarks@)),
                None => None,
            },
            record: match self.record {
                Some(bookmark) => Some(bookmark@),
                None => None,
            },
        }
    }
}

/// The entries that an addition starts from: those that were loaded, or none
/// where the backing file could not be read as a list of records.
pub open spec fn loaded_or_empty(loaded: Result<Vec<Bookmark>, ManagerError>) -> Seq<Entry> {
    match loaded {
        Ok(bookmarks) => entries(bookmarks@),
        Err(_) => Seq::empty(),
    }
}

/// Adds a bookmark of the given name, or sets the offset of the first
/// bookmark that bears it. The bookmarks are then put in ascending order of
/// offset, and of those that share a name the first is kept. A failed load
/// counts as an empty store.
///
/// The file is always rewritten and nothing is reported. In what is written
/// no two bookmarks share a name, and where every offset is a number once
/// the given one is set, none is followed by one of strictly lesser offset.
pub fn add_bookmark(
    loaded: Result<Vec<Bookmark>, ManagerError>,
    name: String,
    offset: u64,
) -> (outcome: Outcome)
    ensures
        outcome@ == add_outcome(loaded_or_empty(loaded), name@, offset),
        outcome@.rewrite is Some,
        unique_names(outcome@.rewrite->0),
        all_numbers(upserted(loaded_or_empty(loaded), name@, offset)) ==> ascending(
            outcome@.rewrite->0,
        ),
{
    let mut bookmarks = match loaded {
        Ok(bookmarks) => bookmarks,
        Err(_) => Vec::new(),
    };
    proof {
        assert(entries(bookmarks@) =~= loaded_or_empty(loaded));
        lemma_added_unique(entries(bookmarks@), name@, offset);
        if all_numbers(upserted(entries(bookmarks@), name@, offset)) {
            lemma_added_ascending(entries(bookmarks@), name@, offset);
        }
    }
    upsert(&mut bookmarks, name, offset);
    sort_by_offset(&mut bookmarks);
    dedup_by_name(&mut bookmarks);
    Outcome { rewrite: Some(bookmarks), record: None }
}

/// Removes the first bookmark of the given name and reports it; the file is
/// rewritten with the others. Where no bookmark bears the name, the file is
/// left alone and nothing is reported. A failed load fails the removal.
pub fn remove_bookmark(loaded: Result<Vec<Bookmark>, ManagerError>, name: String) -> (result:
    Result<Outcome, ManagerError>)
    ensures
        match loaded {
            Ok(bookmarks) => result is Ok && result->Ok_0@ == remove_outcome(
                entries(bookmarks@),
                name@,
            ),
            Err(error) => result == Err::<Outcome, ManagerError>(error),
        },
{
    let mut bookmarks = match loaded {
        Ok(bookmarks) => bookmarks,
        Err(error) => { return Err(error); },
    };
    let ghost before = entries(bookmarks@);
    match position(&bookmarks, &name) {
        Some(index) => {
            let bookmark = bookmarks.remove(index);
            proof {
                assert(entries(bookmarks@) =~= before.remove(index as int));
            }
            Ok(Outcome { rewrite: Some(bookmarks), record: Some(bookmark) })
        },
        None => Ok(Outcome { rewrite: None, record: None }),
    }
}

/// Reports the first bookmark of the given name, if there is one. The file
/// is never rewritten. A failed load fails the query.
pub fn query_bookmark(loaded: Result<Vec<Bookmark>, ManagerError>, name: String) -> (result:
    Result<Outcome, ManagerError>)
    ensures
        match loaded {
            Ok(bookmarks) => result is Ok && result->Ok_0@ == query_outcome(
                entries(bookmarks@),
                name@,
            ),
            Err(error) => result == Err::<Outcome, ManagerError>(error),
        },
        result is Ok ==> result->Ok_0.rewrite is None,
{
    let mut bookmarks = match loaded {
        Ok(bookmarks) => bookmarks,
        Err(error) => { return Err(error); },
    };
    match position(&bookmarks, &name) {
        Some(index) => {
            let bookmark = bookmarks.remove(index);
            Ok(Outcome { rewrite: None, record: Some(bookmark) })
        },
        None => Ok(Outcome { rewrite: None, record: None }),
    }
}

} // verus!
