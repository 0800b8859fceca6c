//! The text of a pass as a reader of statements sees it.
//!
//! A reader goes through the text character by character.  Outside a quoted
//! literal a quote opens a literal and a `;` ends a statement.  Inside a
//! literal two quotes in a row stand for one quote of the value, and a single
//! quote ends the literal.  The laws below say that the reader finds the
//! statements and the values that the writer wrote, whatever the values hold.

use crate::plan::Change;
use crate::script::{
    schema_text, script_of, statement_of, statements_of, transaction_of, BEGIN_SQL, COMMIT_SQL,
    JOURNAL_SQL, RECENCY_SQL, RECORDS_SQL, SHADOW_SQL,
};
use crate::sql::{decimal_of, digit_of, escaped, escaped_char, quoted, signed_decimal_of};
use vstd::prelude::*;

verus! {

/// Where the reader stands.
pub enum Place {
    /// Outside every literal.
    Outside,
    /// Inside a literal.
    Inside,
    /// Inside a literal, right after a quote: the literal has ended unless
    /// another quote follows.
    Closing,
}

/// What the reader has found so far.
pub struct Reading {
    /// The number of statements that have ended.
    pub statements: nat,
    /// The values of the literals that have ended, in order.
    pub values: Seq<Seq<char>>,
    /// The value of the literal that the reader is in, as far as it has been
    /// read; empty outside a literal.
    pub value: Seq<char>,
    pub place: Place,
}

/// The reading before any text.
pub open spec fn fresh() -> Reading {
    Reading { statements: 0, values: Seq::empty(), value: Seq::empty(), place: Place::Outside }
}

/// The reading once the literal that was closing has ended.
pub open spec fn ended(r: Reading) -> Reading {
    Reading {
        statements: r.statements,
        values: r.values.push(r.value),
        value: Seq::empty(),
        place: Place::Outside,
    }
}

/// The reading with one more statement ended.
pub open spec fn one_more(r: Reading) -> Reading {
    Reading { statements: r.statements + 1, ..r }
}

/// The reading after the one character `c`.
pub open spec fn step(r: Reading, c: char) -> Reading {
    match r.place {
        Place::Outside => {
            if c == '\'' {
                Reading { value: Seq::empty(), place: Place::Inside, ..r }
            } else if c == ';' {
                one_more(r)
            } else {
                r
            }
        },
        Place::Inside => {
            if c == '\'' {
                Reading { place: Place::Closing, ..r }
            } else {
                Reading { value: r.value.push(c), ..r }
            }
        },
        Place::Closing => {
            if c == '\'' {
                Reading { value: r.value.push('\''), place: Place::Inside, ..r }
            } else if c == ';' {
                one_more(ended(r))
            } else {
                ended(r)
            }
        },
    }
}

/// The reading after the text `s`, read on from `r`.
pub open spec fn read_on(r: Reading, s: Seq<char>) -> Reading
    decreases s.len(),
{
    if s.len() == 0 {
        r
    } else {
        step(read_on(r, s.drop_last()), s.last())
    }
}

/// The reading after the whole text `s`.
pub open spec fn read(s: Seq<char>) -> Reading {
    read_on(fresh(), s)
}

/// A text is plain when it holds neither a quote nor a `;`.
pub open spec fn is_plain(s: Seq<char>) -> bool {
    forall|k: int| 0 <= k < s.len() ==> #[trigger] s[k] != '\'' && s[k] != ';'
}

/// The text values that an operation carries, in the order in which its
/// statement names them.
pub open spec fn texts_in(change: Change) -> Seq<Seq<char>> {
    match change {
        Change::DeleteRecord { key } => seq![key],
        Change::DeleteShadow { key } => seq![key],
        Change::UpsertRecord { record } => seq![
            record.key,
            record.location,
            record.title,
            record.body,
        ],
        Change::InsertShadow { row } => seq![row.key, row.title, row.body],
    }
}

/// The text values that the operations of a change set carry, in order.
pub open spec fn texts_in_all(changes: Seq<Change>) -> Seq<Seq<char>>
    decreases changes.len(),
{
    if changes.len() == 0 {
        Seq::empty()
    } else {
        texts_in_all(changes.drop_last()) + texts_in(changes.last())
    }
}

/// The reader goes through a text in two parts part by part.
pub proof fn lemma_read_concat(r: Reading, a: Seq<char>, b: Seq<char>)
    ensures
        read_on(r, a + b) == read_on(read_on(r, a), b),
    decreases b.len(),
{
    if b.len() == 0 {
        assert(a + b =~= a);
    } else {
        lemma_read_concat(r, a, b.drop_last());
        assert((a + b).drop_last() =~= a + b.drop_last());
        assert((a + b).last() == b.last());
    }
}

/// Outside a literal plain text changes nothing for the reader.
pub proof fn lemma_plain_outside(r: Reading, s: Seq<char>)
    requires
        r.place is Outside,
        is_plain(s),
    ensures
        read_on(r, s) == r,
    decreases s.len(),
{
    if s.len() > 0 {
        assert(s[s.len() - 1] != '\'' && s[s.len() - 1] != ';');
        assert forall|k: int| 0 <= k < s.drop_last().len() implies #[trigger] s.drop_last()[k]
            != '\'' && s.drop_last()[k] != ';' by {
            assert(s.drop_last()[k] == s[k]);
        }
        lemma_plain_outside(r, s.drop_last());
    }
}

/// Plain text after a closing quote ends the literal.
pub proof fn lemma_plain_closing(r: Reading, s: Seq<char>)
    requires
        r.place is Closing,
        is_plain(s),
        s.len() > 0,
    ensures
        read_on(r, s) == ended(r),
    decreases s.len(),
{
    assert(s[s.len() - 1] != '\'' && s[s.len() - 1] != ';');
    if s.len() > 1 {
        assert forall|k: int| 0 <= k < s.drop_last().len() implies #[trigger] s.drop_last()[k]
            != '\'' && s.drop_last()[k] != ';' by {
            assert(s.drop_last()[k] == s[k]);
        }
        lemma_plain_closing(r, s.drop_last());
    } else {
        assert(read_on(r, s.drop_last()) == r);
    }
}

/// A `;` and a line feed end a statement, and the literal before them if
/// there is one.
pub proof fn lemma_end_read(r: Reading)
    requires
        !(r.place is Inside),
    ensures
        r.place is Outside ==> read_on(r, ";\n"@) == one_more(r),
        r.place is Closing ==> read_on(r, ";\n"@) == one_more(ended(r)),
{
    reveal_strlit(";\n");
    let end = ";\n"@;
    assert(end.drop_last().drop_last() =~= Seq::<char>::empty());
    reveal_with_fuel(read_on, 3);
}

/// A plain text followed by `;` and a line feed is read as one statement.
pub proof fn lemma_plain_statement(r: Reading, s: Seq<char>)
    requires
        r.place is Outside,
        s.len() >= 2,
        s[s.len() - 2] == ';',
        s[s.len() - 1] == '\n',
        is_plain(s.take(s.len() - 2)),
    ensures
        read_on(r, s) == one_more(r),
{
    let body = s.take(s.len() - 2);
    let semi = s.drop_last();
    lemma_plain_outside(r, body);
    assert(semi.drop_last() =~= body);
    assert(semi.last() == ';');
    assert(read_on(r, semi) == one_more(r));
    assert(s.last() == '\n');
}

/// Inside a literal an escaped text is read as the text itself, and the
/// reader stays inside the literal, whatever the text holds.
pub proof fn lemma_escaped_read(r: Reading, text: Seq<char>)
    requires
        r.place is Inside,
    ensures
        read_on(r, escaped(text)) == (Reading { value: r.value + text, ..r }),
    decreases text.len(),
{
    if text.len() == 0 {
        assert(r.value + text =~= r.value);
    } else {
        let head = escaped(text.drop_last());
        let tail = escaped_char(text.last());
        lemma_escaped_read(r, text.drop_last());
        lemma_read_concat(r, head, tail);
        let before = Reading { value: r.value + text.drop_last(), ..r };
        assert(before.value.push(text.last()) =~= r.value + text);
        reveal_with_fuel(read_on, 3);
        if text.last() == '\'' {
            assert(tail.drop_last() =~= seq!['\'']);
            assert(tail.drop_last().drop_last() =~= Seq::<char>::empty());
        } else {
            assert(tail.drop_last() =~= Seq::<char>::empty());
        }
    }
}

/// A quoted value is read as the value itself, whatever it holds: the reader
/// enters the literal at the opening quote and stands at its closing quote
/// with the whole value read.
pub proof fn lemma_quoted_read(r: Reading, value: Seq<char>)
    requires
        r.place is Outside,
    ensures
        read_on(r, quoted(value)) == (Reading { value, place: Place::Closing, ..r }),
{
    let quote = seq!['\''];
    let opened = Reading { value: Seq::empty(), place: Place::Inside, ..r };
    assert(quote.drop_last() =~= Seq::<char>::empty());
    assert(read_on(r, quote) == opened) by {
        reveal_with_fuel(read_on, 2);
    }
    lemma_read_concat(r, quote, escaped(value));
    lemma_escaped_read(opened, value);
    assert(opened.value + value =~= value);
    let filled = Reading { value, ..opened };
    lemma_read_concat(r, quote + escaped(value), quote);
    assert(read_on(filled, quote) == (Reading { place: Place::Closing, ..filled })) by {
        reveal_with_fuel(read_on, 2);
    }
}

/// A number in decimal is plain.
pub proof fn lemma_decimal_plain(n: nat)
    ensures
        is_plain(decimal_of(n)),
        decimal_of(n).len() > 0,
    decreases n,
{
    if n >= 10 {
        lemma_decimal_plain(n / 10);
        let d = digit_of((n % 10) as int);
        let head = decimal_of(n / 10);
        assert forall|k: int| 0 <= k < head.push(d).len() implies #[trigger] head.push(d)[k] != '\''
            && head.push(d)[k] != ';' by {
            if k < head.len() {
                assert(head.push(d)[k] == head[k]);
            }
        }
    }
}

/// A number in decimal is plain, with or without a sign.
pub proof fn lemma_signed_decimal_plain(n: int)
    ensures
        is_plain(signed_decimal_of(n)),
{
    if n < 0 {
        lemma_decimal_plain((-n) as nat);
        assert(is_plain(seq!['-'] + decimal_of((-n) as nat)));
    } else {
        lemma_decimal_plain(n as nat);
    }
}

/// Every operation is read as exactly one statement that holds exactly the
/// values of the operation, whatever they are: no value can end the statement
/// early, keep it from ending, or pass for another value.
pub proof fn lemma_statement_read(r: Reading, change: Change)
    requires
        r.place is Outside,
        r.value == Seq::<char>::empty(),
    ensures
        read_on(r, statement_of(change)) == (Reading {
            statements: r.statements + 1,
            values: r.values + texts_in(change),
            ..r
        }),
{
    let comma = ", "@;
    reveal_strlit(", ");
    assert(is_plain(comma) && comma.len() > 0);
    match change {
        Change::DeleteRecord { key } => {
            let head = "DELETE FROM note_index WHERE tab_key = "@;
            reveal_strlit("DELETE FROM note_index WHERE tab_key = ");
            lemma_plain_outside(r, head);
            lemma_read_concat(r, head, quoted(key));
            lemma_quoted_read(r, key);
            lemma_read_concat(r, head + quoted(key), ";\n"@);
            lemma_end_read(Reading { value: key, place: Place::Closing, ..r });
            assert(r.values.push(key) =~= r.values + texts_in(change));
        },
        Change::DeleteShadow { key } => {
            let head = "DELETE FROM note_fts WHERE tab_key = "@;
            reveal_strlit("DELETE FROM note_fts WHERE tab_key = ");
            lemma_plain_outside(r, head);
            lemma_read_concat(r, head, quoted(key));
            lemma_quoted_read(r, key);
            lemma_read_concat(r, head + quoted(key), ";\n"@);
            lemma_end_read(Reading { value: key, place: Place::Closing, ..r });
            assert(r.values.push(key) =~= r.values + texts_in(change));
        },
        Change::UpsertRecord { record } => {
            let head =
                "INSERT INTO note_index(tab_key, file_path, title, body, word_count, char_count, updated_unix)\nVALUES ("@;
            reveal_strlit(
                "INSERT INTO note_index(tab_key, file_path, title, body, word_count, char_count, updated_unix)\nVALUES (",
            );
            let tail =
                ")\nON CONFLICT(tab_key) DO UPDATE SET\n  file_path=excluded.file_path,\n  title=excluded.title,\n  body=excluded.body,\n  word_count=excluded.word_count,\n  char_count=excluded.char_count,\n  updated_unix=excluded.updated_unix"@;
            reveal_strlit(
                ")\nON CONFLICT(tab_key) DO UPDATE SET\n  file_path=excluded.file_path,\n  title=excluded.title,\n  body=excluded.body,\n  word_count=excluded.word_count,\n  char_count=excluded.char_count,\n  updated_unix=excluded.updated_unix",
            );
            lemma_decimal_plain(record.word_count);
            lemma_decimal_plain(record.char_count);
            lemma_signed_decimal_plain(record.updated_at);
            let closing = |value: Seq<char>, at: Reading|
                Reading { value, place: Place::Closing, ..at };
            // the key
            lemma_plain_outside(r, head);
            lemma_read_concat(r, head, quoted(record.key));
            lemma_quoted_read(r, record.key);
            let t1 = head + quoted(record.key);
            lemma_read_concat(r, t1, comma);
            lemma_plain_closing(closing(record.key, r), comma);
            let r1 = Reading { values: r.values.push(record.key), ..r };
            // the location
            let t2 = t1 + comma;
            lemma_read_concat(r, t2, quoted(record.location));
            lemma_quoted_read(r1, record.location);
            let t3 = t2 + quoted(record.location);
            lemma_read_concat(r, t3, comma);
            lemma_plain_closing(closing(record.location, r1), comma);
            let r2 = Reading { values: r1.values.push(record.location), ..r };
            // the title
            let t4 = t3 + comma;
            lemma_read_concat(r, t4, quoted(record.title));
            lemma_quoted_read(r2, record.title);
            let t5 = t4 + quoted(record.title);
            lemma_read_concat(r, t5, comma);
            lemma_plain_closing(closing(record.title, r2), comma);
            let r3 = Reading { values: r2.values.push(record.title), ..r };
            // the body
            let t6 = t5 + comma;
            lemma_read_concat(r, t6, quoted(record.body));
            lemma_quoted_read(r3, record.body);
            let t7 = t6 + quoted(record.body);
            lemma_read_concat(r, t7, comma);
            lemma_plain_closing(closing(record.body, r3), comma);
            let r4 = Reading { values: r3.values.push(record.body), ..r };
            // the numbers
            let t8 = t7 + comma;
            lemma_read_concat(r, t8, decimal_of(record.word_count));
            lemma_plain_outside(r4, decimal_of(record.word_count));
            let t9 = t8 + decimal_of(record.word_count);
            lemma_read_concat(r, t9, comma);
            lemma_plain_outside(r4, comma);
            let t10 = t9 + comma;
            lemma_read_concat(r, t10, decimal_of(record.char_count));
            lemma_plain_outside(r4, decimal_of(record.char_count));
            let t11 = t10 + decimal_of(record.char_count);
            lemma_read_concat(r, t11, comma);
            let t12 = t11 + comma;
            lemma_read_concat(r, t12, signed_decimal_of(record.updated_at));
            lemma_plain_outside(r4, signed_decimal_of(record.updated_at));
            let t13 = t12 + signed_decimal_of(record.updated_at);
            lemma_read_concat(r, t13, tail);
            lemma_plain_outside(r4, tail);
            let t14 = t13 + tail;
            lemma_read_concat(r, t14, ";\n"@);
            lemma_end_read(r4);
            assert(r4.values =~= r.values + texts_in(change));
        },
        Change::InsertShadow { row } => {
            let head = "INSERT INTO note_fts(tab_key, title, body) VALUES ("@;
            reveal_strlit("INSERT INTO note_fts(tab_key, title, body) VALUES (");
            let close = ")"@;
            reveal_strlit(")");
            assert(is_plain(close) && close.len() > 0);
            let closing = |value: Seq<char>, at: Reading|
                Reading { value, place: Place::Closing, ..at };
            lemma_plain_outside(r, head);
            lemma_read_concat(r, head, quoted(row.key));
            lemma_quoted_read(r, row.key);
            let t1 = head + quoted(row.key);
            lemma_read_concat(r, t1, comma);
            lemma_plain_closing(closing(row.key, r), comma);
            let r1 = Reading { values: r.values.push(row.key), ..r };
            let t2 = t1 + comma;
            lemma_read_concat(r, t2, quoted(row.title));
            lemma_quoted_read(r1, row.title);
            let t3 = t2 + quoted(row.title);
            lemma_read_concat(r, t3, comma);
            lemma_plain_closing(closing(row.title, r1), comma);
            let r2 = Reading { values: r1.values.push(row.title), ..r };
            let t4 = t3 + comma;
            lemma_read_concat(r, t4, quoted(row.body));
            lemma_quoted_read(r2, row.body);
            let t5 = t4 + quoted(row.body);
            lemma_read_concat(r, t5, close);
            lemma_plain_closing(closing(row.body, r2), close);
            let r3 = Reading { values: r2.values.push(row.body), ..r };
            let t6 = t5 + close;
            lemma_read_concat(r, t6, ";\n"@);
            lemma_end_read(r3);
            assert(r3.values =~= r.values + texts_in(change));
        },
    }
}

/// The statements of a change set are read as one statement for each
/// operation, holding the values of the operations in order.
pub proof fn lemma_statements_read(r: Reading, changes: Seq<Change>)
    requires
        r.place is Outside,
        r.value == Seq::<char>::empty(),
    ensures
        read_on(r, statements_of(changes)) == (Reading {
            statements: r.statements + changes.len(),
            values: r.values + texts_in_all(changes),
            ..r
        }),
    decreases changes.len(),
{
    if changes.len() == 0 {
        assert(r.values + texts_in_all(changes) =~= r.values);
    } else {
        let before = changes.drop_last();
        lemma_statements_read(r, before);
        lemma_read_concat(r, statements_of(before), statement_of(changes.last()));
        let mid = read_on(r, statements_of(before));
        lemma_statement_read(mid, changes.last());
        assert(mid.values + texts_in(changes.last()) =~= r.values + texts_in_all(changes));
    }
}

/// The schema is read as four statements that hold no value.
pub proof fn lemma_schema_read()
    ensures
        read(schema_text()) == one_more(one_more(one_more(one_more(fresh())))),
{
    reveal_strlit("PRAGMA journal_mode=WAL;\n");
    reveal_strlit(
        "CREATE TABLE IF NOT EXISTS note_index (\n  tab_key TEXT PRIMARY KEY,\n  file_path TEXT NOT NULL,\n  title TEXT NOT NULL,\n  body TEXT NOT NULL,\n  word_count INTEGER NOT NULL,\n  char_count INTEGER NOT NULL,\n  updated_unix INTEGER NOT NULL\n);\n",
    );
    reveal_strlit(
        "CREATE INDEX IF NOT EXISTS idx_note_index_updated ON note_index(updated_unix DESC);\n",
    );
    reveal_strlit(
        "CREATE VIRTUAL TABLE IF NOT EXISTS note_fts USING fts5(tab_key UNINDEXED, title, body);\n",
    );
    let r0 = fresh();
    let r1 = one_more(r0);
    let r2 = one_more(r1);
    let r3 = one_more(r2);
    lemma_plain_statement(r0, JOURNAL_SQL@);
    lemma_plain_statement(r1, RECORDS_SQL@);
    lemma_plain_statement(r2, RECENCY_SQL@);
    lemma_plain_statement(r3, SHADOW_SQL@);
    lemma_read_concat(r0, JOURNAL_SQL@, RECORDS_SQL@);
    lemma_read_concat(r0, JOURNAL_SQL@ + RECORDS_SQL@, RECENCY_SQL@);
    lemma_read_concat(r0, JOURNAL_SQL@ + RECORDS_SQL@ + RECENCY_SQL@, SHADOW_SQL@);
}

/// Injection safety: a transaction is read as its opening, one statement for
/// each operation and the commit, and the values found in it are the values of
/// the operations, each whole and in its place.  No quote and no `;` in a
/// value adds a statement, removes one, leaves a literal open or changes
/// another value.
pub proof fn lemma_transaction_read(r: Reading, changes: Seq<Change>)
    requires
        r.place is Outside,
        r.value == Seq::<char>::empty(),
    ensures
        read_on(r, transaction_of(changes)) == (Reading {
            statements: r.statements + changes.len() + 2,
            values: r.values + texts_in_all(changes),
            ..r
        }),
{
    reveal_strlit("BEGIN IMMEDIATE;\n");
    reveal_strlit("COMMIT;\n");
    lemma_plain_statement(r, BEGIN_SQL@);
    lemma_read_concat(r, BEGIN_SQL@, statements_of(changes));
    lemma_statements_read(one_more(r), changes);
    let done = read_on(r, BEGIN_SQL@ + statements_of(changes));
    lemma_read_concat(r, BEGIN_SQL@ + statements_of(changes), COMMIT_SQL@);
    lemma_plain_statement(done, COMMIT_SQL@);
}

/// The whole text of a pass is read as the four statements of the schema and
/// the transaction, and holds the values of the operations and no others.
pub proof fn lemma_script_read(changes: Seq<Change>)
    ensures
        read(script_of(changes)) == (Reading {
            statements: changes.len() + 6,
            values: texts_in_all(changes),
            value: Seq::empty(),
            place: Place::Outside,
        }),
{
    lemma_schema_read();
    lemma_read_concat(fresh(), schema_text(), transaction_of(changes));
    lemma_transaction_read(read(schema_text()), changes);
    assert(Seq::<Seq<char>>::empty() + texts_in_all(changes) =~= texts_in_all(changes));
}

} // verus!
