//! The fixed, ordered enumeration of note slots and their keys.

use crate::text::chars_of;
use vstd::prelude::*;

verus! {

/// One of the note slots.  The order of the variants is the order in which a
/// pass walks them.
#[derive(Clone, Copy, Debug, PartialEq, Eq, Hash, Structural)]
pub enum Slot {
    Coral,
    Amber,
    Sage,
    Sky,
    Lavender,
}

/// The number of slots.
pub const SLOT_COUNT: usize = 5;

impl Slot {
    /// The place of the slot in the enumeration, counted from zero.
    pub open spec fn ordinal(self) -> nat {
        match self {
            Slot::Coral => 0,
            Slot::Amber => 1,
            Slot::Sage => 2,
            Slot::Sky => 3,
            Slot::Lavender => 4,
        }
    }

    /// The slot at place `i` of the enumeration.
    pub open spec fn at(i: int) -> Slot {
        if i <= 0 {
            Slot::Coral
        } else if i == 1 {
            Slot::Amber
        } else if i == 2 {
            Slot::Sage
        } else if i == 3 {
            Slot::Sky
        } else {
            Slot::Lavender
        }
    }

    /// The key by which the slot is known in file names and in the index.
    pub open spec fn key_text(self) -> Seq<char> {
        match self {
            Slot::Coral => "coral"@,
            Slot::Amber => "amber"@,
            Slot::Sage => "sage"@,
            Slot::Sky => "sky"@,
            Slot::Lavender => "lavender"@,
        }
    }

    /// The slot whose key is `key`, if there is one.
    pub open spec fn of_key(key: Seq<char>) -> Option<Slot> {
        if key == Slot::Coral.key_text() {
            Some(Slot::Coral)
        } else if key == Slot::Amber.key_text() {
            Some(Slot::Amber)
        } else if key == Slot::Sage.key_text() {
            Some(Slot::Sage)
        } else if key == Slot::Sky.key_text() {
            Some(Slot::Sky)
        } else if key == Slot::Lavender.key_text() {
            Some(Slot::Lavender)
        } else {
            None
        }
    }

    /// The place of the slot in the enumeration.
    pub fn position(self) -> (i: usize)
        ensures
            i == self.ordinal(),
            i < SLOT_COUNT,
    {
        match self {
            Slot::Coral => 0,
            Slot::Amber => 1,
            Slot::Sage => 2,
            Slot::Sky => 3,
            Slot::Lavender => 4,
        }
    }

    /// The slot at place `i`, if there is one.
    pub fn nth(i: usize) -> (r: Option<Slot>)
        ensures
            i < SLOT_COUNT ==> r == Some(Slot::at(i as int)),
            i >= SLOT_COUNT ==> r is None,
    {
        if i == 0 {
            Some(Slot::Coral)
        } else if i == 1 {
            Some(Slot::Amber)
        } else if i == 2 {
            Some(Slot::Sage)
        } else if i == 3 {
            Some(Slot::Sky)
        } else if i == 4 {
            Some(Slot::Lavender)
        } else {
            None
        }
    }

    /// The key of the slot.
    pub fn key(self) -> (k: &'static str)
        ensures
            k@ == self.key_text(),
    {
        match self {
            Slot::Coral => "coral",
            Slot::Amber => "amber",
            Slot::Sage => "sage",
            Slot::Sky => "sky",
            Slot::Lavender => "lavender",
        }
    }

    /// The slot whose key is `key`, if there is one.
    pub fn from_key(key: &str) -> (r: Option<Slot>)
        ensures
            r == Slot::of_key(key@),
    {
        let wanted = chars_of(key);
        let mut i: usize = 0;
        while i < SLOT_COUNT
            invariant
                i <= SLOT_COUNT,
                wanted@ == key@,
                forall|k: int| 0 <= k < i ==> (#[trigger] Slot::at(k)).key_text() != key@,
            decreases SLOT_COUNT - i,
        {
            let slot = Slot::at_place(i);
            let own = chars_of(slot.key());
            if same_chars(own.as_slice(), wanted.as_slice()) {
                proof {
                    lemma_of_key(slot);
                }
                return Some(slot);
            }
            i = i + 1;
        }
        proof {
            assert(Slot::at(0) == Slot::Coral);
            assert(Slot::at(1) == Slot::Amber);
            assert(Slot::at(2) == Slot::Sage);
            assert(Slot::at(3) == Slot::Sky);
            assert(Slot::at(4) == Slot::Lavender);
        }
        None
    }

    /// The slot at place `i`.
    pub(crate) fn at_place(i: usize) -> (slot: Slot)
        requires
            i < SLOT_COUNT,
        ensures
            slot == Slot::at(i as int),
            slot.ordinal() == i,
    {
        if i == 0 {
            Slot::Coral
        } else if i == 1 {
            Slot::Amber
        } else if i == 2 {
            Slot::Sage
        } else if i == 3 {
            Slot::Sky
        } else {
            Slot::Lavender
        }
    }
}

/// Tells whether two runs of characters are the same.
pub(crate) fn same_chars(a: &[char], b: &[char]) -> (r: bool)
    ensures
        r == (a@ == b@),
{
    if a.len() != b.len() {
        return false;
    }
    let n = a.len();
    let mut i: usize = 0;
    while i < n
        invariant
            i <= n,
            n == a@.len(),
            n == b@.len(),
            forall|k: int| 0 <= k < i ==> a@[k] == b@[k],
        decreases n - i,
    {
        if a[i] != b[i] {
            return false;
        }
        i = i + 1;
    }
    proof {
        assert(a@ =~= b@);
    }
    true
}

/// The place of the slot at place `i` is `i`.
pub proof fn lemma_ordinal_at(i: int)
    requires
        0 <= i < SLOT_COUNT,
    ensures
        Slot::at(i).ordinal() == i,
{
}

/// No two slots share a key.
pub proof fn lemma_keys_distinct(a: Slot, b: Slot)
    ensures
        a.key_text() == b.key_text() <==> a == b,
{
    reveal_strlit("coral");
    reveal_strlit("amber");
    reveal_strlit("sage");
    reveal_strlit("sky");
    reveal_strlit("lavender");
    if a != b && a.key_text() == b.key_text() {
        assert(a.key_text().len() == b.key_text().len());
        assert(a.key_text()[0] == b.key_text()[0]);
    }
}

/// A slot is found again by its key, and a key that finds a slot is that
/// slot's key.
pub proof fn lemma_of_key(slot: Slot)
    ensures
        Slot::of_key(slot.key_text()) == Some(slot),
        forall|key: Seq<char>| #[trigger] Slot::of_key(key) == Some(slot) ==> key == slot.key_text(),
{
    lemma_keys_distinct(slot, Slot::Coral);
    lemma_keys_distinct(slot, Slot::Amber);
    lemma_keys_distinct(slot, Slot::Sage);
    lemma_keys_distinct(slot, Slot::Sky);
    lemma_keys_distinct(slot, Slot::Lavender);
}

} // verus!
