//! A mathematical model of the index and of what a pass does to it.
//!
//! The index is a table of records with the key as its primary key, and a
//! shadow table that has no key of its own and is therefore a bag of rows.
//! Nothing here runs: the model says what the operations of a change set mean,
//! and the laws below are proved of every state and every snapshot.

use crate::plan::{
    changes_upto, pass_changes, record_for, shadow_for, slot_changes, Change, RecordRow,
    ShadowRow,
};
use crate::slot::{lemma_of_key, lemma_ordinal_at, Slot, SLOT_COUNT};
use crate::snapshot::content_of;
use crate::text::is_blank;
use vstd::multiset::Multiset;
use vstd::prelude::*;

verus! {

/// What the index holds.
pub struct IndexState {
    /// The primary table: at most one record for a key.
    pub records: Map<Seq<char>, RecordRow>,
    /// The shadow table: any number of rows for a key.
    pub shadow: Multiset<ShadowRow>,
}

/// The record that `state` holds for `key`, if it holds one.
pub open spec fn record_at(state: IndexState, key: Seq<char>) -> Option<RecordRow> {
    if state.records.dom().contains(key) {
        Some(state.records[key])
    } else {
        None
    }
}

/// The state after one operation.
pub open spec fn apply(state: IndexState, change: Change) -> IndexState {
    match change {
        Change::DeleteRecord { key } => IndexState {
            records: state.records.remove(key),
            shadow: state.shadow,
        },
        Change::DeleteShadow { key } => IndexState {
            records: state.records,
            shadow: state.shadow.filter(|row: ShadowRow| row.key != key),
        },
        Change::UpsertRecord { record } => IndexState {
            records: state.records.insert(record.key, record),
            shadow: state.shadow,
        },
        Change::InsertShadow { row } => IndexState {
            records: state.records,
            shadow: state.shadow.insert(row),
        },
    }
}

/// The state after the operations of `changes`, first to last.
pub open spec fn apply_all(state: IndexState, changes: Seq<Change>) -> IndexState
    decreases changes.len(),
{
    if changes.len() == 0 {
        state
    } else {
        apply(apply_all(state, changes.drop_last()), changes.last())
    }
}

/// The state after a pass that committed.
pub open spec fn after_pass(
    state: IndexState,
    root: Seq<char>,
    pages: Map<Slot, Seq<char>>,
    now: int,
) -> IndexState {
    apply_all(state, pass_changes(root, pages, now))
}

/// The state after a pass that ran as one transaction: all of its operations
/// when it committed, none of them when it did not.
pub open spec fn after_transaction(
    state: IndexState,
    root: Seq<char>,
    pages: Map<Slot, Seq<char>>,
    now: int,
    committed: bool,
) -> IndexState {
    if committed {
        after_pass(state, root, pages, now)
    } else {
        state
    }
}

/// The record that the index holds for `key` once the first `n` slots have
/// been handled: for the key of such a slot, the slot's record, or none when
/// the slot is blank; for any other key, what the index held before.
pub open spec fn record_after_upto(
    prior: IndexState,
    root: Seq<char>,
    pages: Map<Slot, Seq<char>>,
    now: int,
    n: nat,
    key: Seq<char>,
) -> Option<RecordRow> {
    match Slot::of_key(key) {
        Some(slot) if slot.ordinal() < n => {
            if is_blank(content_of(pages, slot)) {
                None
            } else {
                Some(record_for(root, slot, content_of(pages, slot), now))
            }
        },
        _ => record_at(prior, key),
    }
}

/// How often the shadow table holds `row` once the first `n` slots have been
/// handled: under the key of such a slot, once the slot's own row and nothing
/// else, and nothing at all when the slot is blank; under any other key, as
/// often as before.
pub open spec fn shadow_count_after_upto(
    prior: IndexState,
    pages: Map<Slot, Seq<char>>,
    n: nat,
    row: ShadowRow,
) -> nat {
    match Slot::of_key(row.key) {
        Some(slot) if slot.ordinal() < n => {
            if !is_blank(content_of(pages, slot)) && row == shadow_for(
                slot,
                content_of(pages, slot),
            ) {
                1
            } else {
                0
            }
        },
        _ => prior.shadow.count(row),
    }
}

/// The record that the index holds for `key` after a pass.
pub open spec fn record_after(
    prior: IndexState,
    root: Seq<char>,
    pages: Map<Slot, Seq<char>>,
    now: int,
    key: Seq<char>,
) -> Option<RecordRow> {
    record_after_upto(prior, root, pages, now, SLOT_COUNT as nat, key)
}

/// How often the shadow table holds `row` after a pass.
pub open spec fn shadow_count_after(
    prior: IndexState,
    pages: Map<Slot, Seq<char>>,
    row: ShadowRow,
) -> nat {
    shadow_count_after_upto(prior, pages, SLOT_COUNT as nat, row)
}

/// Whether `state` is what `prior` becomes once the first `n` slots have been
/// handled.
pub open spec fn settled_upto(
    state: IndexState,
    prior: IndexState,
    root: Seq<char>,
    pages: Map<Slot, Seq<char>>,
    now: int,
    n: nat,
) -> bool {
    &&& forall|key: Seq<char>| #[trigger]
        record_at(state, key) == record_after_upto(prior, root, pages, now, n, key)
    &&& forall|row: ShadowRow| #[trigger]
        state.shadow.count(row) == shadow_count_after_upto(prior, pages, n, row)
}

/// Two states that hold the same records and the same shadow rows are one
/// state.
pub proof fn lemma_state_equal(a: IndexState, b: IndexState)
    requires
        forall|key: Seq<char>| #[trigger] record_at(a, key) == record_at(b, key),
        forall|row: ShadowRow| #[trigger] a.shadow.count(row) == b.shadow.count(row),
    ensures
        a == b,
{
    assert forall|key: Seq<char>|
        a.records.dom().contains(key) == b.records.dom().contains(key) by {
        assert(record_at(a, key) == record_at(b, key));
    }
    assert forall|key: Seq<char>| a.records.dom().contains(key) implies a.records[key]
        == b.records[key] by {
        assert(record_at(a, key) == record_at(b, key));
    }
    assert(a.records =~= b.records);
    assert(a.shadow =~= b.shadow);
}

/// Operations apply one after the other: a list in two parts is applied part
/// by part.
pub proof fn lemma_apply_all_concat(state: IndexState, first: Seq<Change>, second: Seq<Change>)
    ensures
        apply_all(state, first + second) == apply_all(apply_all(state, first), second),
    decreases second.len(),
{
    if second.len() == 0 {
        assert(first + second =~= first);
    } else {
        lemma_apply_all_concat(state, first, second.drop_last());
        assert((first + second).drop_last() =~= first + second.drop_last());
        assert((first + second).last() == second.last());
    }
}

/// What the operations of one slot do to a state.
pub proof fn lemma_apply_slot(
    state: IndexState,
    root: Seq<char>,
    slot: Slot,
    content: Seq<char>,
    now: int,
)
    ensures
        ({
            let after = apply_all(state, slot_changes(root, slot, content, now));
            let key = slot.key_text();
            let kept = state.shadow.filter(|row: ShadowRow| row.key != key);
            if is_blank(content) {
                after == (IndexState { records: state.records.remove(key), shadow: kept })
            } else {
                after == (IndexState {
                    records: state.records.insert(key, record_for(root, slot, content, now)),
                    shadow: kept.insert(shadow_for(slot, content)),
                })
            }
        }),
{
    let changes = slot_changes(root, slot, content, now);
    if is_blank(content) {
        let one = changes.drop_last();
        assert(one.drop_last() =~= Seq::<Change>::empty());
        assert(apply_all(state, one) == apply(state, changes[0])) by {
            reveal_with_fuel(apply_all, 2);
        }
    } else {
        let two = changes.drop_last();
        let one = two.drop_last();
        assert(one.drop_last() =~= Seq::<Change>::empty());
        assert(apply_all(state, one) == apply(state, changes[0])) by {
            reveal_with_fuel(apply_all, 2);
        }
        assert(apply_all(state, two) == apply(apply_all(state, one), changes[1]));
    }
}

/// Handling the first `n` slots settles them and leaves every other key as
/// it was.
pub proof fn lemma_settled_upto(
    prior: IndexState,
    root: Seq<char>,
    pages: Map<Slot, Seq<char>>,
    now: int,
    n: nat,
)
    requires
        n <= SLOT_COUNT,
    ensures
        settled_upto(
            apply_all(prior, changes_upto(root, pages, now, n)),
            prior,
            root,
            pages,
            now,
            n,
        ),
    decreases n,
{
    broadcast use vstd::multiset::group_multiset_axioms;

    if n == 0 {
    } else {
        let m = (n - 1) as nat;
        let slot = Slot::at(n - 1);
        let key = slot.key_text();
        let content = content_of(pages, slot);
        let before = apply_all(prior, changes_upto(root, pages, now, m));
        let after = apply_all(prior, changes_upto(root, pages, now, n));
        lemma_settled_upto(prior, root, pages, now, m);
        lemma_apply_all_concat(
            prior,
            changes_upto(root, pages, now, m),
            slot_changes(root, slot, content, now),
        );
        lemma_apply_slot(before, root, slot, content, now);
        lemma_ordinal_at(n - 1);
        lemma_of_key(slot);
        assert forall|k: Seq<char>| #[trigger]
            record_at(after, k) == record_after_upto(prior, root, pages, now, n, k) by {
            if k != key {
                assert(record_at(after, k) == record_at(before, k));
                assert(record_at(before, k) == record_after_upto(prior, root, pages, now, m, k));
            }
        }
        assert forall|row: ShadowRow| #[trigger]
            after.shadow.count(row) == shadow_count_after_upto(prior, pages, n, row) by {
            let keep = |r: ShadowRow| r.key != key;
            let kept = before.shadow.filter(keep);
            assert(kept.count(row) == if keep(row) {
                before.shadow.count(row)
            } else {
                0
            });
            if row.key != key {
                assert(before.shadow.count(row) == shadow_count_after_upto(prior, pages, m, row));
            }
        }
    }
}

/// After a pass the index holds, for the key of every slot, exactly what the
/// snapshot calls for, and for every other key what it held before.
pub proof fn lemma_pass_settles(
    prior: IndexState,
    root: Seq<char>,
    pages: Map<Slot, Seq<char>>,
    now: int,
)
    ensures
        forall|key: Seq<char>| #[trigger]
            record_at(after_pass(prior, root, pages, now), key) == record_after(
                prior,
                root,
                pages,
                now,
                key,
            ),
        forall|row: ShadowRow| #[trigger]
            after_pass(prior, root, pages, now).shadow.count(row) == shadow_count_after(
                prior,
                pages,
                row,
            ),
{
    lemma_settled_upto(prior, root, pages, now, SLOT_COUNT as nat);
}

/// Completeness: after a pass a slot has a record if and only if its content
/// is not blank, and that record is the one derived from its content.
pub proof fn lemma_pass_complete(
    prior: IndexState,
    root: Seq<char>,
    pages: Map<Slot, Seq<char>>,
    now: int,
    slot: Slot,
)
    ensures
        record_at(after_pass(prior, root, pages, now), slot.key_text()) is Some <==> !is_blank(
            content_of(pages, slot),
        ),
        !is_blank(content_of(pages, slot)) ==> record_at(
            after_pass(prior, root, pages, now),
            slot.key_text(),
        ) == Some(record_for(root, slot, content_of(pages, slot), now)),
{
    lemma_pass_settles(prior, root, pages, now);
    lemma_of_key(slot);
    let after = after_pass(prior, root, pages, now);
    assert(record_at(after, slot.key_text()) == record_after(
        prior,
        root,
        pages,
        now,
        slot.key_text(),
    ));
}

/// Consistency: after a pass a slot that has a record has exactly one shadow
/// row, with the record's title and body; a slot without a record has no
/// shadow row.
pub proof fn lemma_shadow_consistent(
    prior: IndexState,
    root: Seq<char>,
    pages: Map<Slot, Seq<char>>,
    now: int,
    slot: Slot,
)
    ensures
        ({
            let after = after_pass(prior, root, pages, now);
            match record_at(after, slot.key_text()) {
                Some(record) => forall|row: ShadowRow|
                    row.key == slot.key_text() ==> #[trigger] after.shadow.count(row) == (if row.title
                        == record.title && row.body == record.body {
                        1nat
                    } else {
                        0nat
                    }),
                None => forall|row: ShadowRow|
                    row.key == slot.key_text() ==> #[trigger] after.shadow.count(row) == 0,
            }
        }),
{
    lemma_pass_settles(prior, root, pages, now);
    lemma_pass_complete(prior, root, pages, now, slot);
    lemma_of_key(slot);
    let after = after_pass(prior, root, pages, now);
    assert forall|row: ShadowRow| row.key == slot.key_text() implies #[trigger] after.shadow.count(
        row,
    ) == shadow_count_after(prior, pages, row) by {}
}

/// What a pass leaves for a slot depends on that slot's content alone: two
/// passes over snapshots that agree on a slot leave the same record for it,
/// but for the time of the pass, and the same shadow rows, whatever the index
/// held before and whatever the other slots hold.
pub proof fn lemma_slot_independent(
    prior_a: IndexState,
    prior_b: IndexState,
    root: Seq<char>,
    pages_a: Map<Slot, Seq<char>>,
    pages_b: Map<Slot, Seq<char>>,
    now_a: int,
    now_b: int,
    slot: Slot,
)
    requires
        content_of(pages_a, slot) == content_of(pages_b, slot),
    ensures
        ({
            let a = after_pass(prior_a, root, pages_a, now_a);
            let b = after_pass(prior_b, root, pages_b, now_b);
            &&& record_at(a, slot.key_text()) is Some <==> record_at(b, slot.key_text()) is Some
            &&& record_at(a, slot.key_text()) matches Some(record) ==> record_at(
                b,
                slot.key_text(),
            ) == Some(RecordRow { updated_at: now_b, ..record })
            &&& forall|row: ShadowRow|
                row.key == slot.key_text() ==> #[trigger] a.shadow.count(row) == b.shadow.count(row)
        }),
{
    lemma_pass_settles(prior_a, root, pages_a, now_a);
    lemma_pass_settles(prior_b, root, pages_b, now_b);
    lemma_pass_complete(prior_a, root, pages_a, now_a, slot);
    lemma_pass_complete(prior_b, root, pages_b, now_b, slot);
    lemma_of_key(slot);
    let a = after_pass(prior_a, root, pages_a, now_a);
    let b = after_pass(prior_b, root, pages_b, now_b);
    assert forall|row: ShadowRow| row.key == slot.key_text() implies #[trigger] a.shadow.count(row)
        == b.shadow.count(row) by {
        assert(a.shadow.count(row) == shadow_count_after(prior_a, pages_a, row));
        assert(b.shadow.count(row) == shadow_count_after(prior_b, pages_b, row));
    }
}

/// A pass supersedes the one before it: the index after two passes in a row
/// is the index after the second alone.  Nothing that an earlier pass wrote
/// for a slot outlives a later pass.
pub proof fn lemma_pass_supersedes(
    prior: IndexState,
    root_a: Seq<char>,
    pages_a: Map<Slot, Seq<char>>,
    now_a: int,
    root_b: Seq<char>,
    pages_b: Map<Slot, Seq<char>>,
    now_b: int,
)
    ensures
        after_pass(after_pass(prior, root_a, pages_a, now_a), root_b, pages_b, now_b)
            == after_pass(prior, root_b, pages_b, now_b),
{
    let first = after_pass(prior, root_a, pages_a, now_a);
    let both = after_pass(first, root_b, pages_b, now_b);
    let alone = after_pass(prior, root_b, pages_b, now_b);
    lemma_pass_settles(prior, root_a, pages_a, now_a);
    lemma_pass_settles(first, root_b, pages_b, now_b);
    lemma_pass_settles(prior, root_b, pages_b, now_b);
    assert forall|key: Seq<char>| #[trigger] record_at(both, key) == record_at(alone, key) by {
        assert(record_at(both, key) == record_after(first, root_b, pages_b, now_b, key));
        assert(record_at(alone, key) == record_after(prior, root_b, pages_b, now_b, key));
        assert(record_at(first, key) == record_after(prior, root_a, pages_a, now_a, key));
    }
    assert forall|row: ShadowRow| #[trigger] both.shadow.count(row) == alone.shadow.count(row) by {
        assert(both.shadow.count(row) == shadow_count_after(first, pages_b, row));
        assert(alone.shadow.count(row) == shadow_count_after(prior, pages_b, row));
        assert(first.shadow.count(row) == shadow_count_after(prior, pages_a, row));
    }
    lemma_state_equal(both, alone);
}

/// Idempotence: a pass run twice over the same snapshot at the same time
/// leaves the index as the pass run once does.
pub proof fn lemma_pass_idempotent(
    prior: IndexState,
    root: Seq<char>,
    pages: Map<Slot, Seq<char>>,
    now: int,
)
    ensures
        after_pass(after_pass(prior, root, pages, now), root, pages, now) == after_pass(
            prior,
            root,
            pages,
            now,
        ),
{
    lemma_pass_supersedes(prior, root, pages, now, root, pages, now);
}

/// A pass that did not commit costs nothing: the next pass that commits
/// leaves the index as if the failed one had never been tried.
pub proof fn lemma_failed_pass_recovered(
    prior: IndexState,
    root: Seq<char>,
    pages_a: Map<Slot, Seq<char>>,
    now_a: int,
    committed: bool,
    pages_b: Map<Slot, Seq<char>>,
    now_b: int,
)
    ensures
        after_pass(
            after_transaction(prior, root, pages_a, now_a, committed),
            root,
            pages_b,
            now_b,
        ) == after_pass(prior, root, pages_b, now_b),
{
    if committed {
        lemma_pass_supersedes(prior, root, pages_a, now_a, root, pages_b, now_b);
    }
}

/// Deletion: when a slot that was not blank in one pass is blank in the next,
/// the next pass removes its record and its shadow rows.  Every other slot whose
/// content is the same in both passes keeps its shadow rows and its record,
/// the record with the time of the later pass.
pub proof fn lemma_blanked_slot_removed(
    prior: IndexState,
    root: Seq<char>,
    pages_a: Map<Slot, Seq<char>>,
    now_a: int,
    pages_b: Map<Slot, Seq<char>>,
    now_b: int,
    slot: Slot,
)
    requires
        !is_blank(content_of(pages_a, slot)),
        is_blank(content_of(pages_b, slot)),
    ensures
        ({
            let first = after_pass(prior, root, pages_a, now_a);
            let second = after_pass(first, root, pages_b, now_b);
            &&& record_at(first, slot.key_text()) is Some
            &&& record_at(second, slot.key_text()) is None
            &&& forall|row: ShadowRow|
                row.key == slot.key_text() ==> #[trigger] second.shadow.count(row) == 0
            &&& forall|other: Slot|
                other != slot && content_of(pages_a, other) == content_of(pages_b, other) ==> {
                    &&& #[trigger] record_at(second, other.key_text()) == match record_at(
                        first,
                        other.key_text(),
                    ) {
                        Some(record) => Some(RecordRow { updated_at: now_b, ..record }),
                        None => None,
                    }
                    &&& forall|row: ShadowRow|
                        row.key == other.key_text() ==> #[trigger] second.shadow.count(row)
                            == first.shadow.count(row)
                }
        }),
{
    let first = after_pass(prior, root, pages_a, now_a);
    let second = after_pass(first, root, pages_b, now_b);
    lemma_pass_complete(prior, root, pages_a, now_a, slot);
    lemma_pass_complete(first, root, pages_b, now_b, slot);
    lemma_shadow_consistent(first, root, pages_b, now_b, slot);
    assert forall|other: Slot|
        other != slot && content_of(pages_a, other) == content_of(pages_b, other) implies {
        &&& #[trigger] record_at(second, other.key_text()) == match record_at(
            first,
            other.key_text(),
        ) {
            Some(record) => Some(RecordRow { updated_at: now_b, ..record }),
            None => None,
        }
        &&& forall|row: ShadowRow|
            row.key == other.key_text() ==> #[trigger] second.shadow.count(row)
                == first.shadow.count(row)
    } by {
        lemma_slot_independent(prior, first, root, pages_a, pages_b, now_a, now_b, other);
    }
}

} // verus!
