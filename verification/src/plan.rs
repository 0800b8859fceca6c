//! The change set of one synchronization pass, computed from a snapshot alone.

use crate::paths::{slot_path, slot_path_of};
use crate::slot::{Slot, SLOT_COUNT};
use crate::snapshot::{content_of, Snapshot};
use crate::text::{
    blank, chars_of, count_words, is_blank, string_of, title_chars, title_of, words_in,
};
use vstd::prelude::*;

verus! {

/// A row of the primary table, as a mathematical value.
pub struct RecordRow {
    pub key: Seq<char>,
    pub location: Seq<char>,
    pub title: Seq<char>,
    pub body: Seq<char>,
    pub word_count: nat,
    pub char_count: nat,
    pub updated_at: int,
}

/// A row of the full-text shadow table, as a mathematical value.
pub struct ShadowRow {
    pub key: Seq<char>,
    pub title: Seq<char>,
    pub body: Seq<char>,
}

/// One operation on the index, as a mathematical value.
pub enum Change {
    /// Removes the record with this key, if there is one.
    DeleteRecord { key: Seq<char> },
    /// Removes every shadow row with this key.
    DeleteShadow { key: Seq<char> },
    /// Puts this record in the place of the one with the same key, or adds it.
    UpsertRecord { record: RecordRow },
    /// Adds this shadow row.
    InsertShadow { row: ShadowRow },
}

/// The summary of one slot's saved content.
#[derive(Clone, Debug, PartialEq, Eq)]
pub struct DocumentRecord {
    pub slot: Slot,
    pub location: String,
    pub title: String,
    pub body: String,
    pub word_count: usize,
    pub char_count: usize,
    pub updated_at: i64,
}

/// The searchable projection of a record.
#[derive(Clone, Debug, PartialEq, Eq)]
pub struct ShadowEntry {
    pub slot: Slot,
    pub title: String,
    pub body: String,
}

/// One operation on the index.  Every value it carries is data: none of them
/// is ever part of the wording of a statement.
#[derive(Clone, Debug, PartialEq, Eq)]
pub enum Operation {
    DeleteRecord { slot: Slot },
    DeleteShadow { slot: Slot },
    UpsertRecord { record: DocumentRecord },
    InsertShadow { entry: ShadowEntry },
}

impl View for DocumentRecord {
    type V = RecordRow;

    open spec fn view(&self) -> RecordRow {
        RecordRow {
            key: self.slot.key_text(),
            location: self.location@,
            title: self.title@,
            body: self.body@,
            word_count: self.word_count as nat,
            char_count: self.char_count as nat,
            updated_at: self.updated_at as int,
        }
    }
}

impl View for ShadowEntry {
    type V = ShadowRow;

    open spec fn view(&self) -> ShadowRow {
        ShadowRow { key: self.slot.key_text(), title: self.title@, body: self.body@ }
    }
}

impl View for Operation {
    type V = Change;

    open spec fn view(&self) -> Change {
        match self {
            Operation::DeleteRecord { slot } => Change::DeleteRecord { key: slot.key_text() },
            Operation::DeleteShadow { slot } => Change::DeleteShadow { key: slot.key_text() },
            Operation::UpsertRecord { record } => Change::UpsertRecord { record: record@ },
            Operation::InsertShadow { entry } => Change::InsertShadow { row: entry@ },
        }
    }
}

/// The operations of a list, each as its mathematical value.
pub open spec fn changes_of(ops: Seq<Operation>) -> Seq<Change> {
    Seq::new(ops.len(), |i: int| ops[i]@)
}

/// The record of a slot that holds `content`, in a pass at time `now` over the
/// workspace at `root`.
pub open spec fn record_for(root: Seq<char>, slot: Slot, content: Seq<char>, now: int) -> RecordRow {
    RecordRow {
        key: slot.key_text(),
        location: slot_path_of(root, slot),
        title: title_of(content),
        body: content,
        word_count: words_in(content),
        char_count: content.len(),
        updated_at: now,
    }
}

/// The shadow row of a slot that holds `content`.
pub open spec fn shadow_for(slot: Slot, content: Seq<char>) -> ShadowRow {
    ShadowRow { key: slot.key_text(), title: title_of(content), body: content }
}

/// What a pass does for one slot.  A blank slot loses its record and its
/// shadow rows.  Any other slot gets its record put in place, its old shadow
/// rows removed and a fresh one added.
pub open spec fn slot_changes(root: Seq<char>, slot: Slot, content: Seq<char>, now: int) -> Seq<
    Change,
> {
    if is_blank(content) {
        seq![
            Change::DeleteRecord { key: slot.key_text() },
            Change::DeleteShadow { key: slot.key_text() },
        ]
    } else {
        seq![
            Change::UpsertRecord { record: record_for(root, slot, content, now) },
            Change::DeleteShadow { key: slot.key_text() },
            Change::InsertShadow { row: shadow_for(slot, content) },
        ]
    }
}

/// What a pass does for the first `n` slots of the enumeration, in order.
pub open spec fn changes_upto(root: Seq<char>, pages: Map<Slot, Seq<char>>, now: int, n: nat) -> Seq<
    Change,
>
    decreases n,
{
    if n == 0 {
        Seq::empty()
    } else {
        let slot = Slot::at(n - 1);
        changes_upto(root, pages, now, (n - 1) as nat) + slot_changes(
            root,
            slot,
            content_of(pages, slot),
            now,
        )
    }
}

/// The change set of a whole pass: what it does for every slot, in the order
/// of the enumeration.
pub open spec fn pass_changes(root: Seq<char>, pages: Map<Slot, Seq<char>>, now: int) -> Seq<
    Change,
> {
    changes_upto(root, pages, now, SLOT_COUNT as nat)
}

/// Summarizes `content` as the record of `slot`.
pub fn document_record(workspace_path: &str, slot: Slot, content: &str, now: i64) -> (record:
    DocumentRecord)
    ensures
        record@ == record_for(workspace_path@, slot, content@, now as int),
{
    let chars = chars_of(content);
    DocumentRecord {
        slot,
        location: slot_path(workspace_path, slot),
        title: string_of(title_chars(chars.as_slice())),
        body: content.to_owned(),
        word_count: count_words(chars.as_slice()),
        char_count: chars.len(),
        updated_at: now,
    }
}

/// Appends to `ops` what a pass does for `slot`, which holds `content`.
pub fn plan_slot(
    ops: &mut Vec<Operation>,
    workspace_path: &str,
    slot: Slot,
    content: &str,
    now: i64,
)
    ensures
        changes_of(final(ops)@) == changes_of(old(ops)@) + slot_changes(
            workspace_path@,
            slot,
            content@,
            now as int,
        ),
{
    let chars = chars_of(content);
    if blank(chars.as_slice()) {
        ops.push(Operation::DeleteRecord { slot });
        ops.push(Operation::DeleteShadow { slot });
    } else {
        let record = document_record(workspace_path, slot, content, now);
        let entry = ShadowEntry { slot, title: record.title.clone(), body: record.body.clone() };
        ops.push(Operation::UpsertRecord { record });
        ops.push(Operation::DeleteShadow { slot });
        ops.push(Operation::InsertShadow { entry });
    }
    proof {
        assert(changes_of(ops@) =~= changes_of(old(ops)@) + slot_changes(
            workspace_path@,
            slot,
            content@,
            now as int,
        ));
    }
}

/// Computes the change set of one pass at time `now` over the workspace at
/// `workspace_path`, whose slots hold what `snapshot` says.
pub fn plan(workspace_path: &str, snapshot: &Snapshot, now: i64) -> (ops: Vec<Operation>)
    ensures
        changes_of(ops@) == pass_changes(workspace_path@, snapshot@, now as int),
{
    let mut ops: Vec<Operation> = Vec::new();
    let mut i: usize = 0;
    proof {
        assert(changes_of(ops@) =~= Seq::<Change>::empty());
    }
    while i < SLOT_COUNT
        invariant
            i <= SLOT_COUNT,
            changes_of(ops@) == changes_upto(
                workspace_path@,
                snapshot@,
                now as int,
                i as nat,
            ),
        decreases SLOT_COUNT - i,
    {
        let slot = Slot::at_place(i);
        plan_slot(&mut ops, workspace_path, slot, snapshot.content(slot), now);
        i = i + 1;
    }
    ops
}

} // verus!
