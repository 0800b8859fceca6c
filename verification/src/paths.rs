//! Where things are kept under a workspace root.

use crate::slot::Slot;
use crate::text::{chars_of, push_chars, string_of};
use vstd::prelude::*;

verus! {

/// `name` placed under `base`: an absolute `name` stands alone; otherwise the
/// two are set side by side, with one `/` between them unless `base` is empty or
/// already ends in one.
pub open spec fn joined(base: Seq<char>, name: Seq<char>) -> Seq<char> {
    if name.len() > 0 && name[0] == '/' {
        name
    } else if base.len() == 0 || base.last() == '/' {
        base + name
    } else {
        base + seq!['/'] + name
    }
}

/// The directory that holds the notes of a workspace: the root itself.
pub open spec fn notes_dir_of(root: Seq<char>) -> Seq<char> {
    root
}

/// The hidden metadata directory of a workspace.
pub open spec fn hermes_dir_of(root: Seq<char>) -> Seq<char> {
    joined(root, ".hermes"@)
}

/// The file of the index store of a workspace.
pub open spec fn sqlite_path_of(root: Seq<char>) -> Seq<char> {
    joined(hermes_dir_of(root), "index.sqlite"@)
}

/// The file name of a slot: its key and the extension `.md`.
pub open spec fn slot_file_name_of(slot: Slot) -> Seq<char> {
    slot.key_text() + ".md"@
}

/// The file of a slot under a workspace root.
pub open spec fn slot_path_of(root: Seq<char>, slot: Slot) -> Seq<char> {
    joined(notes_dir_of(root), slot_file_name_of(slot))
}

/// Places `name` under `base`.
pub fn join_path(base: &str, name: &str) -> (path: String)
    ensures
        path@ == joined(base@, name@),
{
    let head = chars_of(base);
    let tail = chars_of(name);
    if tail.len() > 0 && tail[0] == '/' {
        return string_of(tail.as_slice());
    }
    let mut path = string_of(head.as_slice());
    if head.len() > 0 && head[head.len() - 1] != '/' {
        path.push('/');
    }
    push_chars(&mut path, tail.as_slice());
    path
}

/// The directory that holds the notes of the workspace at `workspace_path`.
pub fn notes_dir(workspace_path: &str) -> (dir: String)
    ensures
        dir@ == notes_dir_of(workspace_path@),
{
    workspace_path.to_owned()
}

/// The metadata directory of the workspace at `workspace_path`.
pub fn hermes_dir(workspace_path: &str) -> (dir: String)
    ensures
        dir@ == hermes_dir_of(workspace_path@),
{
    join_path(workspace_path, ".hermes")
}

/// The index store file of the workspace at `workspace_path`.
pub fn sqlite_path(workspace_path: &str) -> (path: String)
    ensures
        path@ == sqlite_path_of(workspace_path@),
{
    let dir = hermes_dir(workspace_path);
    join_path(dir.as_str(), "index.sqlite")
}

/// The file name of `slot`.
pub fn slot_file_name(slot: Slot) -> (name: String)
    ensures
        name@ == slot_file_name_of(slot),
{
    let mut name = slot.key().to_owned();
    let ext = chars_of(".md");
    push_chars(&mut name, ext.as_slice());
    name
}

/// The file of `slot` in the workspace at `workspace_path`.
pub fn slot_path(workspace_path: &str, slot: Slot) -> (path: String)
    ensures
        path@ == slot_path_of(workspace_path@, slot),
{
    let dir = notes_dir(workspace_path);
    let name = slot_file_name(slot);
    join_path(dir.as_str(), name.as_str())
}

} // verus!
