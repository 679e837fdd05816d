//! The checkpoint accumulator: the records that wait to be read.
//!
//! Appending and draining both take the accumulator by `&mut`, so neither can
//! run while the other does.

use vstd::prelude::*;
use crate::transition::drained;
use crate::types::{views, EntryView, OwnershipEntry};

verus! {

/// A buffer of records, oldest first.
pub struct Accumulator {
    entries: Vec<OwnershipEntry>,
}

impl View for Accumulator {
    type V = Seq<EntryView>;

    closed spec fn view(&self) -> Seq<EntryView> {
        views(self.entries@)
    }
}

impl Accumulator {
    /// An empty accumulator.
    pub fn new() -> (accumulator: Self)
        ensures
            accumulator@ == Seq::<EntryView>::empty(),
    {
        let accumulator = Accumulator { entries: Vec::new() };
        assert(views(accumulator.entries@) =~= Seq::<EntryView>::empty());
        accumulator
    }

    /// Appends `entries` after the records that are held; none of those is
    /// changed.
    pub fn append(&mut self, entries: Vec<OwnershipEntry>)
        ensures
            final(self)@ == old(self)@ + views(entries@),
    {
        let mut entries = entries;
        let ghost added = entries@;
        self.entries.append(&mut entries);
        assert(views(self.entries@) =~= views(old(self).entries@) + views(added));
    }

    /// Hands out every record that is held, oldest first, and holds none
    /// afterwards.
    pub fn drain(&mut self) -> (entries: Vec<OwnershipEntry>)
        ensures
            (views(entries@), final(self)@) == drained(old(self)@),
    {
        let mut entries: Vec<OwnershipEntry> = Vec::new();
        core::mem::swap(&mut entries, &mut self.entries);
        assert(views(self.entries@) =~= Seq::<EntryView>::empty());
        entries
    }
}

} // verus!
