use hermes_index::paths::slot_path;
use hermes_index::slot::{Slot, SLOT_COUNT};
use hermes_index::snapshot::Snapshot;
use hermes_index::store::{save_action, save_actions, FileAction, Loaded, ReadOutcome};
use std::collections::BTreeMap;

fn carry_out(files: &mut BTreeMap<String, String>, actions: &[FileAction]) {
    for action in actions {
        match action {
            FileAction::Remove { path } => {
                files.remove(path);
            }
            FileAction::Write { path, content } => {
                files.insert(path.clone(), content.clone());
            }
        }
    }
}

fn load(files: &BTreeMap<String, String>, root: &str) -> Snapshot {
    let mut loaded = Loaded::new();
    for i in 0..SLOT_COUNT {
        let slot = Slot::nth(i).unwrap();
        let outcome = match files.get(&slot_path(root, slot)) {
            Some(content) => ReadOutcome::Content { content: content.clone() },
            None => ReadOutcome::Missing,
        };
        loaded.take_read(root, slot, outcome);
    }
    assert!(loaded.failures.is_empty());
    loaded.snapshot
}

#[test]
fn blank_content_removes_the_file() {
    assert_eq!(
        save_action("/ws", Slot::Coral, " \n\t"),
        FileAction::Remove { path: "/ws/coral.md".to_string() }
    );
    assert_eq!(
        save_action("/ws", Slot::Coral, ""),
        FileAction::Remove { path: "/ws/coral.md".to_string() }
    );
}

#[test]
fn other_content_is_written_as_it_is() {
    assert_eq!(
        save_action("/ws/", Slot::Lavender, "  keep my spaces \n"),
        FileAction::Write {
            path: "/ws/lavender.md".to_string(),
            content: "  keep my spaces \n".to_string(),
        }
    );
}

#[test]
fn save_has_one_action_for_every_slot_in_order() {
    let mut snapshot = Snapshot::new();
    snapshot.insert(Slot::Amber, "amber text".to_string());
    snapshot.insert(Slot::Sky, "   ".to_string());
    assert_eq!(
        save_actions("ws", &snapshot),
        vec![
            FileAction::Remove { path: "ws/coral.md".to_string() },
            FileAction::Write { path: "ws/amber.md".to_string(), content: "amber text".to_string() },
            FileAction::Remove { path: "ws/sage.md".to_string() },
            FileAction::Remove { path: "ws/sky.md".to_string() },
            FileAction::Remove { path: "ws/lavender.md".to_string() },
        ]
    );
}

#[test]
fn load_after_save_finds_the_filled_slots() {
    let mut snapshot = Snapshot::new();
    snapshot.insert(Slot::Coral, "# One".to_string());
    snapshot.insert(Slot::Amber, " \n ".to_string());
    snapshot.insert(Slot::Sky, "three".to_string());
    let mut files = BTreeMap::new();
    files.insert("/ws/amber.md".to_string(), "old amber".to_string());
    files.insert("/ws/sage.md".to_string(), "old sage".to_string());
    files.insert("/ws/chat.json".to_string(), "[]".to_string());
    carry_out(&mut files, &save_actions("/ws", &snapshot));
    let found = load(&files, "/ws");
    assert_eq!(found.get(Slot::Coral), Some("# One"));
    assert_eq!(found.get(Slot::Amber), None);
    assert_eq!(found.get(Slot::Sage), None);
    assert_eq!(found.get(Slot::Sky), Some("three"));
    assert_eq!(found.get(Slot::Lavender), None);
    assert_eq!(files.get("/ws/chat.json"), Some(&"[]".to_string()));
    assert_eq!(files.len(), 3);
}

#[test]
fn unreadable_file_is_reported_and_the_rest_is_loaded() {
    let mut loaded = Loaded::new();
    loaded.take_read("/ws", Slot::Coral, ReadOutcome::Content { content: "one".to_string() });
    loaded.take_read(
        "/ws",
        Slot::Amber,
        ReadOutcome::Failed { reason: "Permission denied (os error 13)".to_string() },
    );
    loaded.take_read("/ws", Slot::Sage, ReadOutcome::Missing);
    loaded.take_read("/ws", Slot::Sky, ReadOutcome::Content { content: "four".to_string() });
    loaded.take_read(
        "/ws",
        Slot::Lavender,
        ReadOutcome::Failed { reason: "stream did not contain valid UTF-8".to_string() },
    );
    assert_eq!(loaded.snapshot.get(Slot::Coral), Some("one"));
    assert_eq!(loaded.snapshot.get(Slot::Amber), None);
    assert_eq!(loaded.snapshot.get(Slot::Sage), None);
    assert_eq!(loaded.snapshot.get(Slot::Sky), Some("four"));
    assert_eq!(loaded.snapshot.get(Slot::Lavender), None);
    assert_eq!(
        loaded.failures,
        vec![
            "Failed reading /ws/amber.md: Permission denied (os error 13)".to_string(),
            "Failed reading /ws/lavender.md: stream did not contain valid UTF-8".to_string(),
        ]
    );
}

#[test]
fn new_load_has_gathered_nothing() {
    let loaded = Loaded::new();
    assert!(loaded.failures.is_empty());
    for i in 0..SLOT_COUNT {
        assert!(!loaded.snapshot.contains(Slot::nth(i).unwrap()));
    }
}

#[test]
fn failed_operation_names_its_path() {
    let remove = FileAction::Remove { path: "/ws/sky.md".to_string() };
    assert_eq!(remove.failure("Permission denied"), "Failed removing /ws/sky.md: Permission denied");
    let write = FileAction::Write { path: "/ws/sage.md".to_string(), content: "x".to_string() };
    assert_eq!(write.failure("No space left on device"), "Failed writing /ws/sage.md: No space left on device");
}
