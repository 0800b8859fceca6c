//! The contents of all slots at one moment.

use crate::slot::{Slot, SLOT_COUNT};
use vstd::prelude::*;

verus! {

/// What each slot holds at one moment.  A slot may be absent; an absent slot
/// counts as empty wherever its content is asked for.
#[derive(Clone, Debug)]
pub struct Snapshot {
    entries: [Option<String>; SLOT_COUNT],
}

/// The content of `slot` in `pages`, empty when the slot is absent.
pub open spec fn content_of(pages: Map<Slot, Seq<char>>, slot: Slot) -> Seq<char> {
    if pages.dom().contains(slot) {
        pages[slot]
    } else {
        Seq::empty()
    }
}

impl View for Snapshot {
    type V = Map<Slot, Seq<char>>;

    /// The snapshot as a mapping from the slots that are present to their
    /// contents.
    closed spec fn view(&self) -> Map<Slot, Seq<char>> {
        Map::new(
            |slot: Slot| self.entries@[slot.ordinal() as int] is Some,
            |slot: Slot| self.entries@[slot.ordinal() as int]->0@,
        )
    }
}

impl Snapshot {
    /// A snapshot in which every slot is absent.
    pub fn new() -> (snapshot: Snapshot)
        ensures
            snapshot@ == Map::<Slot, Seq<char>>::empty(),
    {
        let snapshot = Snapshot { entries: [None, None, None, None, None] };
        proof {
            assert(snapshot@ =~= Map::<Slot, Seq<char>>::empty());
        }
        snapshot
    }

    /// Sets the content of `slot`, replacing what it held.
    pub fn insert(&mut self, slot: Slot, content: String)
        ensures
            final(self)@ == old(self)@.insert(slot, content@),
    {
        self.entries[slot.position()] = Some(content);
        proof {
            assert(self@ =~= old(self)@.insert(slot, content@));
        }
    }

    /// Makes `slot` absent.
    pub fn remove(&mut self, slot: Slot)
        ensures
            final(self)@ == old(self)@.remove(slot),
    {
        self.entries[slot.position()] = None;
        proof {
            assert(self@ =~= old(self)@.remove(slot));
        }
    }

    /// Tells whether `slot` is present.
    pub fn contains(&self, slot: Slot) -> (r: bool)
        ensures
            r == self@.dom().contains(slot),
    {
        self.entries[slot.position()].is_some()
    }

    /// The content of `slot`, if it is present.
    pub fn get(&self, slot: Slot) -> (r: Option<&str>)
        ensures
            match r {
                Some(content) => self@.dom().contains(slot) && content@ == self@[slot],
                None => !self@.dom().contains(slot),
            },
    {
        match &self.entries[slot.position()] {
            Some(content) => Some(content.as_str()),
            None => None,
        }
    }

    /// The content of `slot`, empty when it is absent.
    pub fn content(&self, slot: Slot) -> (r: &str)
        ensures
            r@ == content_of(self@, slot),
    {
        match self.get(slot) {
            Some(content) => content,
            None => {
                let empty = "";
                proof {
                    reveal_strlit("");
                    assert(empty@ =~= Seq::<char>::empty());
                }
                empty
            },
        }
    }
}

} // verus!
