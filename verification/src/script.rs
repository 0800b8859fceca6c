//! The text of one synchronization pass: the statements that make sure the
//! schema is there, and the one transaction that carries the change set.

use crate::plan::{changes_of, pass_changes, plan, Change, Operation};
use crate::snapshot::Snapshot;
use crate::sql::{
    decimal_of, push_decimal, push_quoted, push_signed_decimal, quoted, signed_decimal_of,
};
use crate::text::{
    chars_of, is_blank, lemma_blank_iff_trim_empty, string_of, trim, trimmed,
};
use vstd::prelude::*;
use vstd::string::StringExecFns;

verus! {

/// Turns on write-ahead logging, so that the index is durable.
pub const JOURNAL_SQL: &'static str = "PRAGMA journal_mode=WAL;\n";

/// Makes the primary table, keyed by slot key, unless it is there.
pub const RECORDS_SQL: &'static str =
    "CREATE TABLE IF NOT EXISTS note_index (\n  tab_key TEXT PRIMARY KEY,\n  file_path TEXT NOT NULL,\n  title TEXT NOT NULL,\n  body TEXT NOT NULL,\n  word_count INTEGER NOT NULL,\n  char_count INTEGER NOT NULL,\n  updated_unix INTEGER NOT NULL\n);\n";

/// Makes the ordering by time of update, newest first, unless it is there.
pub const RECENCY_SQL: &'static str =
    "CREATE INDEX IF NOT EXISTS idx_note_index_updated ON note_index(updated_unix DESC);\n";

/// Makes the full-text table over title and body, tagged by a slot key that
/// is not itself searched, unless it is there.
pub const SHADOW_SQL: &'static str =
    "CREATE VIRTUAL TABLE IF NOT EXISTS note_fts USING fts5(tab_key UNINDEXED, title, body);\n";

/// What opens the transaction of a pass.
pub const BEGIN_SQL: &'static str = "BEGIN IMMEDIATE;\n";

/// What closes the transaction of a pass.
pub const COMMIT_SQL: &'static str = "COMMIT;\n";

/// The statement that carries out one operation.  Every text value stands in
/// it as a quoted literal, every number in decimal.
pub open spec fn statement_of(change: Change) -> Seq<char> {
    match change {
        Change::DeleteRecord { key } => "DELETE FROM note_index WHERE tab_key = "@ + quoted(key)
            + ";\n"@,
        Change::DeleteShadow { key } => "DELETE FROM note_fts WHERE tab_key = "@ + quoted(key)
            + ";\n"@,
        Change::UpsertRecord { record } =>
            "INSERT INTO note_index(tab_key, file_path, title, body, word_count, char_count, updated_unix)\nVALUES ("@
            + quoted(record.key) + ", "@ + quoted(record.location) + ", "@ + quoted(record.title)
            + ", "@ + quoted(record.body) + ", "@ + decimal_of(record.word_count) + ", "@
            + decimal_of(record.char_count) + ", "@ + signed_decimal_of(record.updated_at)
            + ")\nON CONFLICT(tab_key) DO UPDATE SET\n  file_path=excluded.file_path,\n  title=excluded.title,\n  body=excluded.body,\n  word_count=excluded.word_count,\n  char_count=excluded.char_count,\n  updated_unix=excluded.updated_unix"@
            + ";\n"@,
        Change::InsertShadow { row } => "INSERT INTO note_fts(tab_key, title, body) VALUES ("@
            + quoted(row.key) + ", "@ + quoted(row.title) + ", "@ + quoted(row.body) + ")"@
            + ";\n"@,
    }
}

/// The statements of a change set, one after the other.
pub open spec fn statements_of(changes: Seq<Change>) -> Seq<char>
    decreases changes.len(),
{
    if changes.len() == 0 {
        Seq::empty()
    } else {
        statements_of(changes.drop_last()) + statement_of(changes.last())
    }
}

/// The statements of a change set as one transaction.
pub open spec fn transaction_of(changes: Seq<Change>) -> Seq<char> {
    BEGIN_SQL@ + statements_of(changes) + COMMIT_SQL@
}

/// The statements that make sure the index has its tables.  Each of them
/// leaves an index that already has its part untouched, so that running them
/// again changes nothing.
pub open spec fn schema_text() -> Seq<char> {
    JOURNAL_SQL@ + RECORDS_SQL@ + RECENCY_SQL@ + SHADOW_SQL@
}

/// The whole text of a pass: the schema first, then the transaction.
pub open spec fn script_of(changes: Seq<Change>) -> Seq<char> {
    schema_text() + transaction_of(changes)
}

/// What is reported when the store rejects a pass: the place of the index
/// and what the store said, trimmed, or `unknown error` when it said nothing.
pub open spec fn failure_message_of(index_path: Seq<char>, complaint: Seq<char>) -> Seq<char> {
    "sqlite3 error while updating "@ + index_path + ": "@ + (if is_blank(complaint) {
        "unknown error"@
    } else {
        trim(complaint)
    })
}

/// Appends to `out` the statement that carries out `op`.
pub fn push_statement(out: &mut String, op: &Operation)
    ensures
        final(out)@ == old(out)@ + statement_of(op@),
{
    match op {
        Operation::DeleteRecord { slot } => {
            out.append("DELETE FROM note_index WHERE tab_key = ");
            push_quoted(out, slot.key());
            out.append(";\n");
        },
        Operation::DeleteShadow { slot } => {
            out.append("DELETE FROM note_fts WHERE tab_key = ");
            push_quoted(out, slot.key());
            out.append(";\n");
        },
        Operation::UpsertRecord { record } => {
            out.append(
                "INSERT INTO note_index(tab_key, file_path, title, body, word_count, char_count, updated_unix)\nVALUES (",
            );
            push_quoted(out, record.slot.key());
            out.append(", ");
            push_quoted(out, record.location.as_str());
            out.append(", ");
            push_quoted(out, record.title.as_str());
            out.append(", ");
            push_quoted(out, record.body.as_str());
            out.append(", ");
            push_decimal(out, record.word_count as u64);
            out.append(", ");
            push_decimal(out, record.char_count as u64);
            out.append(", ");
            push_signed_decimal(out, record.updated_at);
            out.append(
                ")\nON CONFLICT(tab_key) DO UPDATE SET\n  file_path=excluded.file_path,\n  title=excluded.title,\n  body=excluded.body,\n  word_count=excluded.word_count,\n  char_count=excluded.char_count,\n  updated_unix=excluded.updated_unix",
            );
            out.append(";\n");
        },
        Operation::InsertShadow { entry } => {
            out.append("INSERT INTO note_fts(tab_key, title, body) VALUES (");
            push_quoted(out, entry.slot.key());
            out.append(", ");
            push_quoted(out, entry.title.as_str());
            out.append(", ");
            push_quoted(out, entry.body.as_str());
            out.append(")");
            out.append(";\n");
        },
    }
    proof {
        assert(out@ =~= old(out)@ + statement_of(op@));
    }
}

/// Writes the statements of `ops` as one transaction.
pub fn render_transaction(ops: &Vec<Operation>) -> (text: String)
    ensures
        text@ == transaction_of(changes_of(ops@)),
{
    let mut text = String::from_str(BEGIN_SQL);
    let n = ops.len();
    let mut i: usize = 0;
    proof {
        assert(changes_of(ops@).take(0) =~= Seq::<Change>::empty());
        assert(text@ =~= BEGIN_SQL@ + statements_of(changes_of(ops@).take(0)));
    }
    while i < n
        invariant
            i <= n,
            n == ops@.len(),
            text@ == BEGIN_SQL@ + statements_of(changes_of(ops@).take(i as int)),
        decreases n - i,
    {
        let ghost before = text@;
        push_statement(&mut text, &ops[i]);
        proof {
            let all = changes_of(ops@);
            assert(all.take(i + 1).drop_last() =~= all.take(i as int));
            assert(all.take(i + 1).last() == ops@[i as int]@);
            assert(text@ =~= BEGIN_SQL@ + statements_of(all.take(i + 1)));
        }
        i = i + 1;
    }
    proof {
        assert(changes_of(ops@).take(n as int) =~= changes_of(ops@));
    }
    text.append(COMMIT_SQL);
    text
}

/// Writes the statements that make sure the index has its tables.
pub fn schema_sql() -> (text: String)
    ensures
        text@ == schema_text(),
{
    let mut text = String::from_str(JOURNAL_SQL);
    text.append(RECORDS_SQL);
    text.append(RECENCY_SQL);
    text.append(SHADOW_SQL);
    text
}

/// Writes the whole text of a pass over `ops`.
pub fn render_script(ops: &Vec<Operation>) -> (text: String)
    ensures
        text@ == script_of(changes_of(ops@)),
{
    let mut text = schema_sql();
    let transaction = render_transaction(ops);
    text.append(transaction.as_str());
    text
}

/// Writes the whole text of the pass at time `now` over the workspace at
/// `workspace_path`, whose slots hold what `snapshot` says.
pub fn sync_script(workspace_path: &str, snapshot: &Snapshot, now: i64) -> (text: String)
    ensures
        text@ == script_of(pass_changes(workspace_path@, snapshot@, now as int)),
{
    let ops = plan(workspace_path, snapshot, now);
    render_script(&ops)
}

/// Words the failure of a pass that the store rejected with `complaint`.
pub fn failure_message(index_path: &str, complaint: &str) -> (message: String)
    ensures
        message@ == failure_message_of(index_path@, complaint@),
{
    let mut message = String::from_str("sqlite3 error while updating ");
    message.append(index_path);
    message.append(": ");
    let chars = chars_of(complaint);
    let said = trimmed(chars.as_slice());
    proof {
        lemma_blank_iff_trim_empty(complaint@);
    }
    if said.len() == 0 {
        message.append("unknown error");
    } else {
        let said_text = string_of(said);
        message.append(said_text.as_str());
    }
    message
}

/// Tells how a pass ended: well when the store accepted it, and otherwise
/// with the failure worded from what the store said.
pub fn pass_result(index_path: &str, accepted: bool, complaint: &str) -> (result: Result<
    (),
    String,
>)
    ensures
        result is Ok <==> accepted,
        result matches Err(message) ==> message@ == failure_message_of(index_path@, complaint@),
{
    if accepted {
        Ok(())
    } else {
        Err(failure_message(index_path, complaint))
    }
}

} // verus!
