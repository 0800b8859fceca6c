use hermes_index::plan::{document_record, plan, plan_slot, DocumentRecord, Operation, ShadowEntry};
use hermes_index::slot::{Slot, SLOT_COUNT};
use hermes_index::snapshot::Snapshot;
use std::collections::BTreeMap;

fn snapshot_of(entries: &[(Slot, &str)]) -> Snapshot {
    let mut snapshot = Snapshot::new();
    for (slot, content) in entries {
        snapshot.insert(*slot, content.to_string());
    }
    snapshot
}

fn all_slots() -> Vec<Slot> {
    (0..SLOT_COUNT).map(|i| Slot::nth(i).unwrap()).collect()
}

struct Index {
    records: BTreeMap<String, DocumentRecord>,
    shadow: Vec<(String, String, String)>,
}

impl Index {
    fn new() -> Index {
        Index { records: BTreeMap::new(), shadow: Vec::new() }
    }

    fn apply(&mut self, op: &Operation) {
        match op {
            Operation::DeleteRecord { slot } => {
                self.records.remove(slot.key());
            }
            Operation::DeleteShadow { slot } => {
                self.shadow.retain(|row| row.0 != slot.key());
            }
            Operation::UpsertRecord { record } => {
                self.records.insert(record.slot.key().to_string(), record.clone());
            }
            Operation::InsertShadow { entry } => {
                let row = (entry.slot.key().to_string(), entry.title.clone(), entry.body.clone());
                self.shadow.push(row);
            }
        }
    }

    fn pass(&mut self, root: &str, snapshot: &Snapshot, now: i64) {
        for op in plan(root, snapshot, now) {
            self.apply(&op);
        }
    }

    fn shadow_rows(&self, slot: Slot) -> Vec<(String, String, String)> {
        self.shadow.iter().filter(|row| row.0 == slot.key()).cloned().collect()
    }

    fn sorted_shadow(&self) -> Vec<(String, String, String)> {
        let mut rows = self.shadow.clone();
        rows.sort();
        rows
    }
}

fn stale_index() -> Index {
    let mut index = Index::new();
    for slot in all_slots() {
        index.apply(&Operation::UpsertRecord {
            record: document_record("/old", slot, "stale text", 1),
        });
        for _ in 0..2 {
            index.apply(&Operation::InsertShadow {
                entry: ShadowEntry {
                    slot,
                    title: "stale".to_string(),
                    body: "stale text".to_string(),
                },
            });
        }
    }
    index
}

#[test]
fn record_holds_the_derived_fields() {
    let record = document_record("/ws", Slot::Amber, "# Hello World\n\nBody", 1700000000);
    assert_eq!(
        record,
        DocumentRecord {
            slot: Slot::Amber,
            location: "/ws/amber.md".to_string(),
            title: "Hello World".to_string(),
            body: "# Hello World\n\nBody".to_string(),
            word_count: 4,
            char_count: 19,
            updated_at: 1700000000,
        }
    );
}

#[test]
fn blank_slot_gets_a_delete_pair() {
    let mut ops = Vec::new();
    plan_slot(&mut ops, "/ws", Slot::Sage, "\n\n   \n", 5);
    assert_eq!(
        ops,
        vec![
            Operation::DeleteRecord { slot: Slot::Sage },
            Operation::DeleteShadow { slot: Slot::Sage },
        ]
    );
}

#[test]
fn filled_slot_gets_upsert_and_shadow_replacement() {
    let mut ops = vec![Operation::DeleteRecord { slot: Slot::Coral }];
    plan_slot(&mut ops, "/ws", Slot::Sky, "one two  three", 9);
    assert_eq!(
        ops,
        vec![
            Operation::DeleteRecord { slot: Slot::Coral },
            Operation::UpsertRecord {
                record: DocumentRecord {
                    slot: Slot::Sky,
                    location: "/ws/sky.md".to_string(),
                    title: "one two  three".to_string(),
                    body: "one two  three".to_string(),
                    word_count: 3,
                    char_count: 14,
                    updated_at: 9,
                },
            },
            Operation::DeleteShadow { slot: Slot::Sky },
            Operation::InsertShadow {
                entry: ShadowEntry {
                    slot: Slot::Sky,
                    title: "one two  three".to_string(),
                    body: "one two  three".to_string(),
                },
            },
        ]
    );
}

#[test]
fn plan_of_empty_snapshot_deletes_everything() {
    let ops = plan("/ws", &Snapshot::new(), 3);
    let mut expected = Vec::new();
    for slot in all_slots() {
        expected.push(Operation::DeleteRecord { slot });
        expected.push(Operation::DeleteShadow { slot });
    }
    assert_eq!(ops, expected);
}

#[test]
fn plan_walks_the_slots_in_order() {
    let snapshot = snapshot_of(&[(Slot::Lavender, "last"), (Slot::Amber, "  "), (Slot::Coral, "# First")]);
    let ops = plan("root", &snapshot, 77);
    let expected = vec![
        Operation::UpsertRecord {
            record: DocumentRecord {
                slot: Slot::Coral,
                location: "root/coral.md".to_string(),
                title: "First".to_string(),
                body: "# First".to_string(),
                word_count: 2,
                char_count: 7,
                updated_at: 77,
            },
        },
        Operation::DeleteShadow { slot: Slot::Coral },
        Operation::InsertShadow {
            entry: ShadowEntry {
                slot: Slot::Coral,
                title: "First".to_string(),
                body: "# First".to_string(),
            },
        },
        Operation::DeleteRecord { slot: Slot::Amber },
        Operation::DeleteShadow { slot: Slot::Amber },
        Operation::DeleteRecord { slot: Slot::Sage },
        Operation::DeleteShadow { slot: Slot::Sage },
        Operation::DeleteRecord { slot: Slot::Sky },
        Operation::DeleteShadow { slot: Slot::Sky },
        Operation::UpsertRecord {
            record: DocumentRecord {
                slot: Slot::Lavender,
                location: "root/lavender.md".to_string(),
                title: "last".to_string(),
                body: "last".to_string(),
                word_count: 1,
                char_count: 4,
                updated_at: 77,
            },
        },
        Operation::DeleteShadow { slot: Slot::Lavender },
        Operation::InsertShadow {
            entry: ShadowEntry {
                slot: Slot::Lavender,
                title: "last".to_string(),
                body: "last".to_string(),
            },
        },
    ];
    assert_eq!(ops, expected);
}

#[test]
fn plan_shares_one_time_over_all_records() {
    let snapshot = snapshot_of(&[(Slot::Coral, "a"), (Slot::Sage, "b"), (Slot::Sky, "c")]);
    let mut times = Vec::new();
    for op in plan("/ws", &snapshot, -5) {
        if let Operation::UpsertRecord { record } = op {
            times.push(record.updated_at);
        }
    }
    assert_eq!(times, vec![-5, -5, -5]);
}

#[test]
fn plan_carries_hostile_text_as_plain_data() {
    let hostile = "x'); DELETE FROM note_index; --";
    let snapshot = snapshot_of(&[(Slot::Amber, hostile), (Slot::Sky, "calm")]);
    let with_hostile = plan("/ws", &snapshot, 1);
    let calm = plan("/ws", &snapshot_of(&[(Slot::Amber, "tame"), (Slot::Sky, "calm")]), 1);
    assert_eq!(with_hostile.len(), calm.len());
    for (a, b) in with_hostile.iter().zip(calm.iter()) {
        match (a, b) {
            (Operation::UpsertRecord { record: ra }, Operation::UpsertRecord { record: rb }) => {
                assert_eq!(ra.slot, rb.slot);
                if ra.slot == Slot::Amber {
                    assert_eq!(ra.body, hostile);
                    assert_eq!(ra.title, hostile);
                } else {
                    assert_eq!(ra, rb);
                }
            }
            (Operation::InsertShadow { entry: ea }, Operation::InsertShadow { entry: eb }) => {
                assert_eq!(ea.slot, eb.slot);
                if ea.slot == Slot::Amber {
                    assert_eq!(ea.body, hostile);
                } else {
                    assert_eq!(ea, eb);
                }
            }
            _ => assert_eq!(a, b),
        }
    }
}

#[test]
fn pass_is_complete() {
    let snapshot = snapshot_of(&[(Slot::Coral, "# One"), (Slot::Amber, " \n "), (Slot::Sky, "three")]);
    let mut index = stale_index();
    index.pass("/ws", &snapshot, 10);
    for slot in all_slots() {
        let filled = !snapshot.content(slot).trim().is_empty();
        assert_eq!(index.records.contains_key(slot.key()), filled);
    }
    assert_eq!(index.records.len(), 2);
}

#[test]
fn pass_keeps_shadow_in_step_with_records() {
    let snapshot = snapshot_of(&[(Slot::Coral, "# One\nmore"), (Slot::Lavender, "five")]);
    let mut index = stale_index();
    index.pass("/ws", &snapshot, 10);
    for slot in all_slots() {
        let rows = index.shadow_rows(slot);
        match index.records.get(slot.key()) {
            Some(record) => {
                assert_eq!(rows, vec![(slot.key().to_string(), record.title.clone(), record.body.clone())]);
            }
            None => assert!(rows.is_empty()),
        }
    }
}

#[test]
fn pass_twice_is_pass_once() {
    let snapshot = snapshot_of(&[(Slot::Coral, "# One"), (Slot::Sage, "it's"), (Slot::Sky, "")]);
    let mut once = stale_index();
    once.pass("/ws", &snapshot, 10);
    let mut twice = stale_index();
    twice.pass("/ws", &snapshot, 10);
    twice.pass("/ws", &snapshot, 10);
    assert_eq!(once.records, twice.records);
    assert_eq!(once.sorted_shadow(), twice.sorted_shadow());
}

#[test]
fn later_pass_supersedes_earlier_one() {
    let first = snapshot_of(&[(Slot::Coral, "old"), (Slot::Amber, "gone soon")]);
    let second = snapshot_of(&[(Slot::Coral, "new"), (Slot::Sky, "fresh")]);
    let mut both = stale_index();
    both.pass("/a", &first, 10);
    both.pass("/b", &second, 20);
    let mut alone = stale_index();
    alone.pass("/b", &second, 20);
    assert_eq!(both.records, alone.records);
    assert_eq!(both.sorted_shadow(), alone.sorted_shadow());
}

#[test]
fn blanking_a_slot_removes_it_and_nothing_else() {
    let before = snapshot_of(&[(Slot::Coral, "# Keep"), (Slot::Amber, "drop me"), (Slot::Sky, "stay")]);
    let after = snapshot_of(&[(Slot::Coral, "# Keep"), (Slot::Amber, "  \n"), (Slot::Sky, "stay")]);
    let mut index = Index::new();
    index.pass("/ws", &before, 10);
    assert!(index.records.contains_key("amber"));
    assert_eq!(index.shadow_rows(Slot::Amber).len(), 1);
    let records_before = index.records.clone();
    let coral_rows = index.shadow_rows(Slot::Coral);
    let sky_rows = index.shadow_rows(Slot::Sky);
    index.pass("/ws", &after, 10);
    assert!(!index.records.contains_key("amber"));
    assert!(index.shadow_rows(Slot::Amber).is_empty());
    assert_eq!(index.records.get("coral"), records_before.get("coral"));
    assert_eq!(index.records.get("sky"), records_before.get("sky"));
    assert_eq!(index.shadow_rows(Slot::Coral), coral_rows);
    assert_eq!(index.shadow_rows(Slot::Sky), sky_rows);
    assert_eq!(index.records.len(), 2);
}

#[test]
fn later_pass_refreshes_the_time_of_unchanged_slots() {
    let snapshot = snapshot_of(&[(Slot::Coral, "# Keep")]);
    let mut index = Index::new();
    index.pass("/ws", &snapshot, 10);
    let earlier = index.records.get("coral").unwrap().clone();
    index.pass("/ws", &snapshot, 20);
    let later = index.records.get("coral").unwrap().clone();
    assert_eq!(later, DocumentRecord { updated_at: 20, ..earlier });
}

#[test]
fn snapshot_holds_what_was_inserted() {
    let mut snapshot = Snapshot::new();
    for slot in all_slots() {
        assert!(!snapshot.contains(slot));
        assert_eq!(snapshot.get(slot), None);
        assert_eq!(snapshot.content(slot), "");
    }
    snapshot.insert(Slot::Sage, "green".to_string());
    snapshot.insert(Slot::Sky, String::new());
    assert_eq!(snapshot.get(Slot::Sage), Some("green"));
    assert_eq!(snapshot.content(Slot::Sage), "green");
    assert!(snapshot.contains(Slot::Sky));
    assert_eq!(snapshot.get(Slot::Sky), Some(""));
    assert_eq!(snapshot.get(Slot::Coral), None);
    snapshot.insert(Slot::Sage, "greener".to_string());
    assert_eq!(snapshot.content(Slot::Sage), "greener");
    snapshot.remove(Slot::Sage);
    assert!(!snapshot.contains(Slot::Sage));
    assert_eq!(snapshot.content(Slot::Sage), "");
    snapshot.remove(Slot::Sage);
    assert_eq!(snapshot.get(Slot::Sage), None);
    assert_eq!(snapshot.get(Slot::Sky), Some(""));
}
