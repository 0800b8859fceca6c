//! What a save does to the files of a workspace, and what a load finds there.
//!
//! The file operations themselves are the caller's.  This module decides which
//! of them a save calls for, and states over a model of the files what they
//! achieve.

use crate::paths::{slot_file_name_of, slot_path, slot_path_of};
use crate::slot::{lemma_keys_distinct, lemma_ordinal_at, Slot, SLOT_COUNT};
use crate::snapshot::{content_of, Snapshot};
use crate::text::{is_blank, is_blank_text};
use vstd::prelude::*;
use vstd::string::StringExecFns;

verus! {

/// One file operation of a save, as a mathematical value.
pub enum FileChange {
    /// Deletes the file at this path, if there is one.
    Remove { path: Seq<char> },
    /// Writes this content to the file at this path, in place of what it
    /// held.
    Write { path: Seq<char>, content: Seq<char> },
}

/// One file operation of a save.
#[derive(Clone, Debug, PartialEq, Eq)]
pub enum FileAction {
    /// Delete the file at `path`, if there is one.
    Remove { path: String },
    /// Write `content` to the file at `path`, in place of what it held, after
    /// creating the directories above it where they are missing.
    Write { path: String, content: String },
}

/// What came of reading the file of one slot, as a mathematical value.
pub enum ReadResult {
    Missing,
    Content { content: Seq<char> },
    Failed { reason: Seq<char> },
}

/// What came of reading the file of one slot.
#[derive(Clone, Debug, PartialEq, Eq)]
pub enum ReadOutcome {
    /// The slot has no file.
    Missing,
    /// The file was read, and this is all of its text.
    Content { content: String },
    /// The file is there and could not be read, for this reason.
    Failed { reason: String },
}

/// What a load has gathered: the slots that were read, and a report for each
/// file that could not be read.
#[derive(Clone, Debug)]
pub struct Loaded {
    pub snapshot: Snapshot,
    pub failures: Vec<String>,
}

impl View for ReadOutcome {
    type V = ReadResult;

    open spec fn view(&self) -> ReadResult {
        match self {
            ReadOutcome::Missing => ReadResult::Missing,
            ReadOutcome::Content { content } => ReadResult::Content { content: content@ },
            ReadOutcome::Failed { reason } => ReadResult::Failed { reason: reason@ },
        }
    }
}

impl View for FileAction {
    type V = FileChange;

    open spec fn view(&self) -> FileChange {
        match self {
            FileAction::Remove { path } => FileChange::Remove { path: path@ },
            FileAction::Write { path, content } => FileChange::Write {
                path: path@,
                content: content@,
            },
        }
    }
}

/// The texts of a list of strings.
pub open spec fn texts_of(strings: Seq<String>) -> Seq<Seq<char>> {
    Seq::new(strings.len(), |i: int| strings[i]@)
}

/// The report of a file at `path` that could not be read for `reason`.
pub open spec fn read_failure_of(path: Seq<char>, reason: Seq<char>) -> Seq<char> {
    "Failed reading "@ + path + ": "@ + reason
}

/// The report of an operation that could not be carried out for `reason`.
pub open spec fn failure_of(change: FileChange, reason: Seq<char>) -> Seq<char> {
    match change {
        FileChange::Remove { path } => "Failed removing "@ + path + ": "@ + reason,
        FileChange::Write { path, content } => "Failed writing "@ + path + ": "@ + reason,
    }
}

/// What the file of a slot is found to be in `files`.
pub open spec fn read_of(files: Map<Seq<char>, Seq<char>>, path: Seq<char>) -> ReadResult {
    if files.dom().contains(path) {
        ReadResult::Content { content: files[path] }
    } else {
        ReadResult::Missing
    }
}

/// The operations of a list, each as its mathematical value.
pub open spec fn file_changes_of(actions: Seq<FileAction>) -> Seq<FileChange> {
    Seq::new(actions.len(), |i: int| actions[i]@)
}

/// What a save does for one slot: a blank slot has its file deleted, any
/// other slot has its content written out as it is.
pub open spec fn slot_file_change(root: Seq<char>, slot: Slot, content: Seq<char>) -> FileChange {
    if is_blank(content) {
        FileChange::Remove { path: slot_path_of(root, slot) }
    } else {
        FileChange::Write { path: slot_path_of(root, slot), content }
    }
}

/// What a save does for the first `n` slots of the enumeration, in order.
pub open spec fn save_changes_upto(root: Seq<char>, pages: Map<Slot, Seq<char>>, n: nat) -> Seq<
    FileChange,
>
    decreases n,
{
    if n == 0 {
        Seq::empty()
    } else {
        let slot = Slot::at(n - 1);
        save_changes_upto(root, pages, (n - 1) as nat).push(
            slot_file_change(root, slot, content_of(pages, slot)),
        )
    }
}

/// What a save does: one operation for every slot, in the order of the
/// enumeration.
pub open spec fn save_changes(root: Seq<char>, pages: Map<Slot, Seq<char>>) -> Seq<FileChange> {
    save_changes_upto(root, pages, SLOT_COUNT as nat)
}

/// The files after one operation, the files being a mapping from paths to
/// contents.
pub open spec fn file_after(files: Map<Seq<char>, Seq<char>>, change: FileChange) -> Map<
    Seq<char>,
    Seq<char>,
> {
    match change {
        FileChange::Remove { path } => files.remove(path),
        FileChange::Write { path, content } => files.insert(path, content),
    }
}

/// The files after the operations of `changes`, first to last.
pub open spec fn files_after(files: Map<Seq<char>, Seq<char>>, changes: Seq<FileChange>) -> Map<
    Seq<char>,
    Seq<char>,
>
    decreases changes.len(),
{
    if changes.len() == 0 {
        files
    } else {
        file_after(files_after(files, changes.drop_last()), changes.last())
    }
}

/// What a load finds: every slot whose file exists, with the file's content.
pub open spec fn loaded(files: Map<Seq<char>, Seq<char>>, root: Seq<char>) -> Map<
    Slot,
    Seq<char>,
> {
    Map::new(
        |slot: Slot| files.dom().contains(slot_path_of(root, slot)),
        |slot: Slot| files[slot_path_of(root, slot)],
    )
}

/// `pages` without its blank entries.
pub open spec fn without_blank(pages: Map<Slot, Seq<char>>) -> Map<Slot, Seq<char>> {
    Map::new(
        |slot: Slot| pages.dom().contains(slot) && !is_blank(pages[slot]),
        |slot: Slot| pages[slot],
    )
}

/// The slot whose file under `root` is `path`, if there is one.
pub open spec fn slot_of_path(root: Seq<char>, path: Seq<char>) -> Option<Slot> {
    if path == slot_path_of(root, Slot::Coral) {
        Some(Slot::Coral)
    } else if path == slot_path_of(root, Slot::Amber) {
        Some(Slot::Amber)
    } else if path == slot_path_of(root, Slot::Sage) {
        Some(Slot::Sage)
    } else if path == slot_path_of(root, Slot::Sky) {
        Some(Slot::Sky)
    } else if path == slot_path_of(root, Slot::Lavender) {
        Some(Slot::Lavender)
    } else {
        None
    }
}

/// The content of the file at `path`, if there is one.
pub open spec fn file_at(files: Map<Seq<char>, Seq<char>>, path: Seq<char>) -> Option<Seq<char>> {
    if files.dom().contains(path) {
        Some(files[path])
    } else {
        None
    }
}

/// The content of the file at `path` once the first `n` slots have been
/// saved: for the file of such a slot, the slot's content, or no file when the
/// slot is blank; for any other path, what was there before.
pub open spec fn file_after_save_upto(
    files: Map<Seq<char>, Seq<char>>,
    root: Seq<char>,
    pages: Map<Slot, Seq<char>>,
    n: nat,
    path: Seq<char>,
) -> Option<Seq<char>> {
    match slot_of_path(root, path) {
        Some(slot) if slot.ordinal() < n => {
            if is_blank(content_of(pages, slot)) {
                None
            } else {
                Some(content_of(pages, slot))
            }
        },
        _ => file_at(files, path),
    }
}

/// No two slots share a file.
pub proof fn lemma_slot_paths_distinct(root: Seq<char>, a: Slot, b: Slot)
    ensures
        slot_path_of(root, a) == slot_path_of(root, b) <==> a == b,
{
    reveal_strlit("coral");
    reveal_strlit("amber");
    reveal_strlit("sage");
    reveal_strlit("sky");
    reveal_strlit("lavender");
    let name_a = slot_file_name_of(a);
    let name_b = slot_file_name_of(b);
    if slot_path_of(root, a) == slot_path_of(root, b) {
        assert(name_a[0] == a.key_text()[0]);
        assert(name_b[0] == b.key_text()[0]);
        let lead = if root.len() == 0 || root.last() == '/' {
            root
        } else {
            root + seq!['/']
        };
        assert(slot_path_of(root, a) =~= lead + name_a);
        assert(slot_path_of(root, b) =~= lead + name_b);
        assert(name_a =~= (lead + name_a).skip(lead.len() as int));
        assert(name_b =~= (lead + name_b).skip(lead.len() as int));
        assert(name_a.len() == name_b.len());
        assert(a.key_text() =~= name_a.take(a.key_text().len() as int));
        assert(b.key_text() =~= name_b.take(b.key_text().len() as int));
        lemma_keys_distinct(a, b);
    }
}

/// A slot is found again by its file, and a path that finds a slot is that
/// slot's file.
pub proof fn lemma_slot_of_path(root: Seq<char>, slot: Slot)
    ensures
        slot_of_path(root, slot_path_of(root, slot)) == Some(slot),
        forall|path: Seq<char>| #[trigger]
            slot_of_path(root, path) == Some(slot) ==> path == slot_path_of(root, slot),
{
    lemma_slot_paths_distinct(root, slot, Slot::Coral);
    lemma_slot_paths_distinct(root, slot, Slot::Amber);
    lemma_slot_paths_distinct(root, slot, Slot::Sage);
    lemma_slot_paths_distinct(root, slot, Slot::Sky);
    lemma_slot_paths_distinct(root, slot, Slot::Lavender);
}

/// Saving the first `n` slots settles their files and leaves every other
/// path as it was.
pub proof fn lemma_saved_upto(
    files: Map<Seq<char>, Seq<char>>,
    root: Seq<char>,
    pages: Map<Slot, Seq<char>>,
    n: nat,
)
    requires
        n <= SLOT_COUNT,
    ensures
        forall|path: Seq<char>| #[trigger]
            file_at(files_after(files, save_changes_upto(root, pages, n)), path)
                == file_after_save_upto(files, root, pages, n, path),
    decreases n,
{
    if n > 0 {
        let m = (n - 1) as nat;
        let last = Slot::at(n - 1);
        let before = files_after(files, save_changes_upto(root, pages, m));
        let after = files_after(files, save_changes_upto(root, pages, n));
        let changes = save_changes_upto(root, pages, n);
        lemma_saved_upto(files, root, pages, m);
        assert(changes.drop_last() =~= save_changes_upto(root, pages, m));
        assert(after == file_after(
            before,
            slot_file_change(root, last, content_of(pages, last)),
        ));
        lemma_ordinal_at(n - 1);
        lemma_slot_of_path(root, last);
        assert forall|path: Seq<char>| #[trigger]
            file_at(after, path) == file_after_save_upto(files, root, pages, n, path) by {
            if path != slot_path_of(root, last) {
                assert(file_at(after, path) == file_at(before, path));
                assert(file_at(before, path) == file_after_save_upto(files, root, pages, m, path));
            }
        }
    }
}

/// Round trip: a load right after a save finds the snapshot that was saved,
/// without its blank entries.  What the files held before does not matter.
pub proof fn lemma_save_then_load(
    files: Map<Seq<char>, Seq<char>>,
    root: Seq<char>,
    pages: Map<Slot, Seq<char>>,
)
    ensures
        loaded(files_after(files, save_changes(root, pages)), root) == without_blank(pages),
{
    lemma_saved_upto(files, root, pages, SLOT_COUNT as nat);
    let after = files_after(files, save_changes(root, pages));
    assert forall|slot: Slot|
        file_at(after, slot_path_of(root, slot)) == (if is_blank(content_of(pages, slot)) {
            None
        } else {
            Some(content_of(pages, slot))
        }) by {
        lemma_slot_of_path(root, slot);
        assert(file_at(after, slot_path_of(root, slot)) == file_after_save_upto(
            files,
            root,
            pages,
            SLOT_COUNT as nat,
            slot_path_of(root, slot),
        ));
    }
    assert(is_blank(Seq::<char>::empty()));
    assert(loaded(after, root) =~= without_blank(pages));
}

/// A save touches the files of the slots and no others.
pub proof fn lemma_save_keeps_other_files(
    files: Map<Seq<char>, Seq<char>>,
    root: Seq<char>,
    pages: Map<Slot, Seq<char>>,
    path: Seq<char>,
)
    requires
        slot_of_path(root, path) is None,
    ensures
        file_at(files_after(files, save_changes(root, pages)), path) == file_at(files, path),
{
    lemma_saved_upto(files, root, pages, SLOT_COUNT as nat);
    assert(file_at(files_after(files, save_changes(root, pages)), path) == file_after_save_upto(
        files,
        root,
        pages,
        SLOT_COUNT as nat,
        path,
    ));
}

impl FileAction {
    /// Words the failure of this operation: what was tried, on which path,
    /// and why it failed.
    pub fn failure(&self, reason: &str) -> (message: String)
        ensures
            message@ == failure_of(self@, reason@),
    {
        let mut message = String::new();
        match self {
            FileAction::Remove { path } => {
                message.append("Failed removing ");
                message.append(path.as_str());
            },
            FileAction::Write { path, content: _ } => {
                message.append("Failed writing ");
                message.append(path.as_str());
            },
        }
        message.append(": ");
        message.append(reason);
        proof {
            assert(message@ =~= failure_of(self@, reason@));
        }
        message
    }
}

impl Loaded {
    /// A load that has gathered nothing yet.
    pub fn new() -> (loaded: Loaded)
        ensures
            loaded.snapshot@ == Map::<Slot, Seq<char>>::empty(),
            loaded.failures@.len() == 0,
    {
        Loaded { snapshot: Snapshot::new(), failures: Vec::new() }
    }

    /// Takes in what came of reading the file of `slot`.  Content that was
    /// read becomes the slot's content.  A slot without a file stays absent.
    /// A file that could not be read leaves its slot absent too and adds a
    /// report that names the file; the other slots are not affected.
    pub fn take_read(&mut self, workspace_path: &str, slot: Slot, outcome: ReadOutcome)
        ensures
            match outcome@ {
                ReadResult::Missing => {
                    &&& final(self).snapshot@ == old(self).snapshot@
                    &&& texts_of(final(self).failures@) == texts_of(old(self).failures@)
                },
                ReadResult::Content { content } => {
                    &&& final(self).snapshot@ == old(self).snapshot@.insert(slot, content)
                    &&& texts_of(final(self).failures@) == texts_of(old(self).failures@)
                },
                ReadResult::Failed { reason } => {
                    &&& final(self).snapshot@ == old(self).snapshot@
                    &&& texts_of(final(self).failures@) == texts_of(old(self).failures@).push(
                        read_failure_of(slot_path_of(workspace_path@, slot), reason),
                    )
                },
            },
    {
        match outcome {
            ReadOutcome::Missing => {},
            ReadOutcome::Content { content } => {
                self.snapshot.insert(slot, content);
            },
            ReadOutcome::Failed { reason } => {
                let path = slot_path(workspace_path, slot);
                let mut message = String::from_str("Failed reading ");
                message.append(path.as_str());
                message.append(": ");
                message.append(reason.as_str());
                self.failures.push(message);
                proof {
                    assert(texts_of(self.failures@) =~= texts_of(old(self).failures@).push(
                        read_failure_of(slot_path_of(workspace_path@, slot), reason@),
                    ));
                }
            },
        }
    }
}

/// When every slot is read from `files` without failure, in any order and
/// each slot once, the load gathers exactly what `loaded` says is there.
pub proof fn lemma_reads_gather_loaded(
    files: Map<Seq<char>, Seq<char>>,
    root: Seq<char>,
    gathered: Map<Slot, Seq<char>>,
)
    requires
        forall|slot: Slot|
            match read_of(files, #[trigger] slot_path_of(root, slot)) {
                ReadResult::Content { content } => gathered.dom().contains(slot) && gathered[slot]
                    == content,
                _ => !gathered.dom().contains(slot),
            },
    ensures
        gathered == loaded(files, root),
{
    assert forall|slot: Slot|
        gathered.dom().contains(slot) == loaded(files, root).dom().contains(slot) by {
        let _ = read_of(files, slot_path_of(root, slot));
    }
    assert forall|slot: Slot| gathered.dom().contains(slot) implies gathered[slot] == loaded(
        files,
        root,
    )[slot] by {
        let _ = read_of(files, slot_path_of(root, slot));
    }
    assert(gathered =~= loaded(files, root));
}

/// Decides what a save does for `slot`, which holds `content`.
pub fn save_action(workspace_path: &str, slot: Slot, content: &str) -> (action: FileAction)
    ensures
        action@ == slot_file_change(workspace_path@, slot, content@),
{
    let path = slot_path(workspace_path, slot);
    if is_blank_text(content) {
        FileAction::Remove { path }
    } else {
        FileAction::Write { path, content: content.to_owned() }
    }
}

/// Decides what a save of `snapshot` does in the workspace at
/// `workspace_path`: one operation for every slot, to be carried out in order.
pub fn save_actions(workspace_path: &str, snapshot: &Snapshot) -> (actions: Vec<FileAction>)
    ensures
        file_changes_of(actions@) == save_changes(workspace_path@, snapshot@),
{
    let mut actions: Vec<FileAction> = Vec::new();
    let mut i: usize = 0;
    proof {
        assert(file_changes_of(actions@) =~= Seq::<FileChange>::empty());
    }
    while i < SLOT_COUNT
        invariant
            i <= SLOT_COUNT,
            file_changes_of(actions@) == save_changes_upto(workspace_path@, snapshot@, i as nat),
        decreases SLOT_COUNT - i,
    {
        let slot = Slot::at_place(i);
        let action = save_action(workspace_path, slot, snapshot.content(slot));
        let ghost before = actions@;
        actions.push(action);
        proof {
            assert(file_changes_of(actions@) =~= file_changes_of(before).push(action@));
        }
        i = i + 1;
    }
    actions
}

} // verus!
