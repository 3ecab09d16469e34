//! The record that the store keeps.

use crate::offset::offset_less;
use crate::offset::precedes;
use vstd::prelude::*;

verus! {

/// A name paired with an offset.
#[derive(Clone, Debug)]
pub struct Bookmark {
    /// The name by which the record is found.
    pub name: String,
    /// The offset, a 64-bit binary floating-point number, as its bit
    /// pattern.
    pub offset: u64,
}

/// What a bookmark holds: the characters of its name and the bit pattern of
/// its offset.
pub struct Entry {
    pub name: Seq<char>,
    pub offset: u64,
}

impl View for Bookmark {
    type V = Entry;

    open spec fn view(&self) -> Entry {
        Entry { name: self.name@, offset: self.offset }
    }
}

impl Bookmark {
    /// A bookmark of the given name at the given offset.
    pub fn new(name: String, offset: u64) -> (bookmark: Bookmark)
        ensures
            bookmark.name == name,
            bookmark.offset == offset,
            bookmark@ == (Entry { name: name@, offset }),
    {
        Bookmark { name, offset }
    }

    /// Tells whether the bookmark bears the given name.
    pub fn is_named(&self, name: &String) -> (named: bool)
        ensures
            named == (self@.name == name@),
    {
        self.name == *name
    }

    /// Tells whether this bookmark comes strictly before the other in the
    /// order of the store, which is the order of the offsets.
    pub fn sorts_before(&self, other: &Bookmark) -> (before: bool)
        ensures
            before == precedes(self@.offset, other@.offset),
    {
        offset_less(self.offset, other.offset)
    }
}

/// Two bookmarks are equal where they bear the same name, whatever their
/// offsets.
impl PartialEq for Bookmark {
    fn eq(&self, other: &Bookmark) -> (equal: bool) {
        self.name == other.name
    }
}

impl vstd::std_specs::cmp::PartialEqSpecImpl for Bookmark {
    open spec fn obeys_eq_spec() -> bool {
        true
    }

    open spec fn eq_spec(&self, other: &Bookmark) -> bool {
        self.name@ == other.name@
    }
}

} // verus!
