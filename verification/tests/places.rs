use hermes_index::paths::{
    hermes_dir, join_path, notes_dir, slot_file_name, slot_path, sqlite_path,
};
use hermes_index::slot::{Slot, SLOT_COUNT};
use std::path::Path;

fn shown(path: std::path::PathBuf) -> String {
    path.to_string_lossy().to_string()
}

#[test]
fn notes_dir_is_the_root() {
    assert_eq!(notes_dir("/home/me/notes"), "/home/me/notes");
    assert_eq!(notes_dir(""), "");
}

#[test]
fn hermes_dir_is_hidden_under_the_root() {
    assert_eq!(hermes_dir("/home/me/notes"), "/home/me/notes/.hermes");
    assert_eq!(hermes_dir("/home/me/notes/"), "/home/me/notes/.hermes");
    assert_eq!(hermes_dir(""), ".hermes");
    assert_eq!(hermes_dir("/"), "/.hermes");
}

#[test]
fn sqlite_path_is_in_the_hermes_dir() {
    assert_eq!(sqlite_path("/home/me/notes"), "/home/me/notes/.hermes/index.sqlite");
    assert_eq!(sqlite_path("relative dir"), "relative dir/.hermes/index.sqlite");
    assert_eq!(sqlite_path(""), ".hermes/index.sqlite");
}

#[test]
fn slot_files_carry_key_and_extension() {
    assert_eq!(slot_file_name(Slot::Coral), "coral.md");
    assert_eq!(slot_file_name(Slot::Amber), "amber.md");
    assert_eq!(slot_file_name(Slot::Sage), "sage.md");
    assert_eq!(slot_file_name(Slot::Sky), "sky.md");
    assert_eq!(slot_file_name(Slot::Lavender), "lavender.md");
    assert_eq!(slot_path("/ws", Slot::Sky), "/ws/sky.md");
    assert_eq!(slot_path("/ws/", Slot::Sky), "/ws/sky.md");
    assert_eq!(slot_path("it's here", Slot::Lavender), "it's here/lavender.md");
}

#[test]
fn join_path_cases() {
    assert_eq!(join_path("a", "b"), "a/b");
    assert_eq!(join_path("a/", "b"), "a/b");
    assert_eq!(join_path("", "b"), "b");
    assert_eq!(join_path("a", "/b"), "/b");
    assert_eq!(join_path("a", ""), "a/");
    assert_eq!(join_path("", ""), "");
    assert_eq!(join_path("a//", "b/c"), "a//b/c");
}

#[test]
fn places_agree_with_std_paths() {
    for root in ["/home/me/notes", "/home/me/notes/", "", "/", "rel", "rel/sub/", "ünï/cödé", "a b"] {
        assert_eq!(notes_dir(root), shown(Path::new(root).to_path_buf()));
        assert_eq!(hermes_dir(root), shown(Path::new(root).join(".hermes")));
        assert_eq!(sqlite_path(root), shown(Path::new(root).join(".hermes").join("index.sqlite")));
        for i in 0..SLOT_COUNT {
            let slot = Slot::nth(i).unwrap();
            let name = format!("{}.md", slot.key());
            assert_eq!(slot_path(root, slot), shown(Path::new(root).join(name)));
        }
    }
}

#[test]
fn slots_in_order() {
    let keys: Vec<&str> = (0..SLOT_COUNT).map(|i| Slot::nth(i).unwrap().key()).collect();
    assert_eq!(keys, vec!["coral", "amber", "sage", "sky", "lavender"]);
    assert_eq!(SLOT_COUNT, 5);
    assert_eq!(Slot::nth(5), None);
    assert_eq!(Slot::nth(usize::MAX), None);
}

#[test]
fn slot_positions_and_keys_go_both_ways() {
    for i in 0..SLOT_COUNT {
        let slot = Slot::nth(i).unwrap();
        assert_eq!(slot.position(), i);
        assert_eq!(Slot::from_key(slot.key()), Some(slot));
    }
    assert_eq!(Slot::from_key("coral"), Some(Slot::Coral));
    assert_eq!(Slot::from_key("lavender"), Some(Slot::Lavender));
}

#[test]
fn unknown_keys_find_no_slot() {
    assert_eq!(Slot::from_key(""), None);
    assert_eq!(Slot::from_key("Coral"), None);
    assert_eq!(Slot::from_key("coral "), None);
    assert_eq!(Slot::from_key("cora"), None);
    assert_eq!(Slot::from_key("skyy"), None);
    assert_eq!(Slot::from_key("violet"), None);
}

#[test]
fn no_two_slots_share_a_file() {
    for root in ["", "/", "/ws", "/ws/", "coral.md"] {
        let mut paths: Vec<String> =
            (0..SLOT_COUNT).map(|i| slot_path(root, Slot::nth(i).unwrap())).collect();
        paths.sort();
        paths.dedup();
        assert_eq!(paths.len(), SLOT_COUNT);
    }
}
