//! Character-level measures of a note: whitespace, trimming, words, lines and
//! the title.

use vstd::prelude::*;
use vstd::slice::slice_subrange;

verus! {

/// `String::push` of the standard library: the string afterwards is the
/// string before with the one character `c` added at its end.
pub assume_specification[ String::push ](s: &mut String, c: char)
    ensures
        final(s)@ == old(s)@.push(c),
;

/// The longest title, in characters.
pub const TITLE_LIMIT: usize = 120;

/// Whether `c` has the Unicode property `White_Space`.
pub open spec fn is_whitespace(c: char) -> bool {
    let u = c as u32;
    ||| 0x09 <= u <= 0x0D
    ||| u == 0x20
    ||| u == 0x85
    ||| u == 0xA0
    ||| u == 0x1680
    ||| 0x2000 <= u <= 0x200A
    ||| u == 0x2028
    ||| u == 0x2029
    ||| u == 0x202F
    ||| u == 0x205F
    ||| u == 0x3000
}

/// A text is blank when it holds nothing but whitespace.
pub open spec fn is_blank(s: Seq<char>) -> bool {
    forall|i: int| 0 <= i < s.len() ==> is_whitespace(#[trigger] s[i])
}

/// `s` without its leading whitespace.
pub open spec fn trim_start(s: Seq<char>) -> Seq<char>
    decreases s.len(),
{
    if s.len() > 0 && is_whitespace(s[0]) {
        trim_start(s.drop_first())
    } else {
        s
    }
}

/// `s` without its trailing whitespace.
pub open spec fn trim_end(s: Seq<char>) -> Seq<char>
    decreases s.len(),
{
    if s.len() > 0 && is_whitespace(s.last()) {
        trim_end(s.drop_last())
    } else {
        s
    }
}

/// `s` without whitespace at either end.
pub open spec fn trim(s: Seq<char>) -> Seq<char> {
    trim_end(trim_start(s))
}

/// `s` without its leading run of `#`.
pub open spec fn strip_heading(s: Seq<char>) -> Seq<char>
    decreases s.len(),
{
    if s.len() > 0 && s[0] == '#' {
        strip_heading(s.drop_first())
    } else {
        s
    }
}

/// What one line contributes as a title: the line trimmed, freed of its heading
/// marker and trimmed again.
pub open spec fn line_title(line: Seq<char>) -> Seq<char> {
    trim(strip_heading(trim(line)))
}

/// The first `limit` characters of `s`, or all of it when it is shorter.
pub open spec fn truncate(s: Seq<char>, limit: nat) -> Seq<char> {
    if s.len() <= limit {
        s
    } else {
        s.take(limit as int)
    }
}

/// The length of the first line of `s`: the number of characters before its
/// first line feed, or all of them when it has none.
pub open spec fn first_line_len(s: Seq<char>) -> nat
    decreases s.len(),
{
    if s.len() == 0 || s[0] == '\n' {
        0
    } else {
        1 + first_line_len(s.drop_first())
    }
}

/// The title of a text: the contribution of its first line that has one, cut to
/// `TITLE_LIMIT` characters; empty when no line has one.
pub open spec fn title_of(s: Seq<char>) -> Seq<char>
    decreases s.len(),
{
    let n = first_line_len(s);
    let t = line_title(s.take(n as int));
    if t.len() > 0 {
        truncate(t, TITLE_LIMIT as nat)
    } else if n >= s.len() {
        Seq::empty()
    } else {
        title_of(s.skip(n as int + 1))
    }
}

/// Whether a word begins at position `i` of `s`: a character that is not
/// whitespace, at the start or right after whitespace.
pub open spec fn is_word_start(s: Seq<char>, i: int) -> bool {
    &&& 0 <= i < s.len()
    &&& !is_whitespace(s[i])
    &&& (i == 0 || is_whitespace(s[i - 1]))
}

/// The number of words in `s`, that is of maximal runs without whitespace.
pub open spec fn words_in(s: Seq<char>) -> nat
    decreases s.len(),
{
    if s.len() == 0 {
        0
    } else if is_word_start(s, s.len() - 1) {
        words_in(s.drop_last()) + 1
    } else {
        words_in(s.drop_last())
    }
}

/// What `trim_start` takes away is whitespace, and what it leaves is the rest
/// of the text, which does not begin with whitespace.
pub proof fn lemma_trim_start(s: Seq<char>)
    ensures
        trim_start(s).len() <= s.len(),
        trim_start(s) == s.skip(s.len() - trim_start(s).len()),
        forall|i: int| 0 <= i < s.len() - trim_start(s).len() ==> is_whitespace(#[trigger] s[i]),
        trim_start(s).len() > 0 ==> !is_whitespace(trim_start(s)[0]),
    decreases s.len(),
{
    if s.len() > 0 && is_whitespace(s[0]) {
        let r = s.drop_first();
        lemma_trim_start(r);
        let k = r.len() - trim_start(r).len();
        assert(r.skip(k) =~= s.skip(k + 1));
        assert forall|i: int| 0 <= i < s.len() - trim_start(s).len() implies is_whitespace(
            #[trigger] s[i],
        ) by {
            if i > 0 {
                assert(s[i] == r[i - 1]);
            }
        }
    } else {
        assert(s.skip(0) =~= s);
    }
}

/// What `trim_end` takes away is whitespace, and what it leaves is the
/// beginning of the text, which does not end in whitespace.
pub proof fn lemma_trim_end(s: Seq<char>)
    ensures
        trim_end(s).len() <= s.len(),
        trim_end(s) == s.take(trim_end(s).len() as int),
        forall|i: int| trim_end(s).len() <= i < s.len() ==> is_whitespace(#[trigger] s[i]),
        trim_end(s).len() > 0 ==> !is_whitespace(trim_end(s).last()),
    decreases s.len(),
{
    if s.len() > 0 && is_whitespace(s.last()) {
        let r = s.drop_last();
        lemma_trim_end(r);
        assert(r.take(trim_end(r).len() as int) =~= s.take(trim_end(r).len() as int));
        assert forall|i: int| trim_end(s).len() <= i < s.len() implies is_whitespace(
            #[trigger] s[i],
        ) by {
            if i < s.len() - 1 {
                assert(s[i] == r[i]);
            }
        }
    } else {
        assert(s.take(s.len() as int) =~= s);
    }
}

/// A text is blank exactly when trimming leaves nothing of it.
pub proof fn lemma_blank_iff_trim_empty(s: Seq<char>)
    ensures
        is_blank(s) <==> trim(s).len() == 0,
{
    let t = trim_start(s);
    lemma_trim_start(s);
    lemma_trim_end(t);
    let k = s.len() - t.len();
    if t.len() > 0 {
        assert(t[0] == s[k]);
        assert(!is_whitespace(s[k]));
        if trim(s).len() == 0 {
            assert(is_whitespace(t[0]));
        }
    } else {
        assert(trim_end(t) =~= t);
    }
}

/// A blank text stays blank when characters are taken off either end of it.
proof fn lemma_blank_parts(s: Seq<char>, from: int, to: int)
    requires
        is_blank(s),
        0 <= from <= to <= s.len(),
    ensures
        is_blank(s.subrange(from, to)),
{
    assert forall|i: int| 0 <= i < s.subrange(from, to).len() implies is_whitespace(
        #[trigger] s.subrange(from, to)[i],
    ) by {
        assert(s.subrange(from, to)[i] == s[from + i]);
    }
}

/// The first line is never longer than the text.
proof fn lemma_first_line_len(s: Seq<char>)
    ensures
        first_line_len(s) <= s.len(),
    decreases s.len(),
{
    if s.len() > 0 && s[0] != '\n' {
        lemma_first_line_len(s.drop_first());
    }
}

/// A title is never longer than `TITLE_LIMIT` characters.
pub proof fn lemma_title_bounded(s: Seq<char>)
    ensures
        title_of(s).len() <= TITLE_LIMIT,
    decreases s.len(),
{
    let n = first_line_len(s);
    let t = line_title(s.take(n as int));
    if t.len() == 0 && n < s.len() {
        lemma_title_bounded(s.skip(n as int + 1));
    }
}

/// A blank text has no title.
pub proof fn lemma_blank_has_no_title(s: Seq<char>)
    requires
        is_blank(s),
    ensures
        title_of(s).len() == 0,
    decreases s.len(),
{
    let n = first_line_len(s);
    lemma_first_line_len(s);
    let line = s.take(n as int);
    lemma_blank_parts(s, 0, n as int);
    lemma_blank_iff_trim_empty(line);
    assert(trim(line) =~= Seq::<char>::empty());
    assert(strip_heading(trim(line)) =~= Seq::<char>::empty());
    assert(line_title(line) =~= Seq::<char>::empty());
    if n < s.len() {
        lemma_blank_parts(s, n as int + 1, s.len() as int);
        lemma_blank_has_no_title(s.skip(n as int + 1));
    }
}

/// A text has no words exactly when it is blank, and never more words than
/// characters.
pub proof fn lemma_no_words_iff_blank(s: Seq<char>)
    ensures
        words_in(s) == 0 <==> is_blank(s),
        words_in(s) <= s.len(),
    decreases s.len(),
{
    if s.len() > 0 {
        let r = s.drop_last();
        lemma_no_words_iff_blank(r);
        if is_blank(s) {
            lemma_blank_parts(s, 0, s.len() - 1);
            assert(is_whitespace(s[s.len() - 1]));
        }
        if words_in(s) == 0 {
            assert(is_blank(r));
            assert(!is_word_start(s, s.len() - 1));
            if s.len() > 1 {
                assert(r[s.len() - 2] == s[s.len() - 2]);
                assert(is_whitespace(r[s.len() - 2]));
            }
            assert forall|i: int| 0 <= i < s.len() implies is_whitespace(#[trigger] s[i]) by {
                if i < s.len() - 1 {
                    assert(s[i] == r[i]);
                }
            }
        }
    }
}

/// Tells whether `c` is whitespace.
pub fn char_is_whitespace(c: char) -> (r: bool)
    ensures
        r == is_whitespace(c),
{
    let u: u32 = c as u32;
    (0x09 <= u && u <= 0x0D) || u == 0x20 || u == 0x85 || u == 0xA0 || u == 0x1680 || (0x2000 <= u
        && u <= 0x200A) || u == 0x2028 || u == 0x2029 || u == 0x202F || u == 0x205F || u == 0x3000
}

/// The characters of `s`, in order.
pub fn chars_of(s: &str) -> (v: Vec<char>)
    ensures
        v@ == s@,
{
    let mut v: Vec<char> = Vec::new();
    for c in it: s.chars()
        invariant
            it.seq() == s@,
            v@ == it.seq().take(it.index()),
    {
        v.push(c);
    }
    v
}

/// Appends the characters of `tail` to `out`.
pub fn push_chars(out: &mut String, tail: &[char])
    ensures
        final(out)@ == old(out)@ + tail@,
{
    let n = tail.len();
    let mut i: usize = 0;
    while i < n
        invariant
            i <= n,
            n == tail@.len(),
            out@ == old(out)@ + tail@.take(i as int),
        decreases n - i,
    {
        out.push(tail[i]);
        i = i + 1;
    }
}

/// The string made of the characters of `s`.
pub fn string_of(s: &[char]) -> (r: String)
    ensures
        r@ == s@,
{
    let mut r = String::new();
    push_chars(&mut r, s);
    r
}

pub(crate) fn trimmed_start<'a>(s: &'a [char]) -> (r: &'a [char])
    ensures
        r@ == trim_start(s@),
{
    let n = s.len();
    let mut i: usize = 0;
    proof {
        assert(s@.skip(0) =~= s@);
    }
    while i < n && char_is_whitespace(s[i])
        invariant
            i <= n,
            n == s@.len(),
            trim_start(s@) == trim_start(s@.skip(i as int)),
        decreases n - i,
    {
        proof {
            assert(s@.skip(i as int).drop_first() =~= s@.skip(i + 1));
        }
        i = i + 1;
    }
    slice_subrange(s, i, n)
}

pub(crate) fn trimmed_end<'a>(s: &'a [char]) -> (r: &'a [char])
    ensures
        r@ == trim_end(s@),
{
    let mut j: usize = s.len();
    proof {
        assert(s@.take(j as int) =~= s@);
    }
    while j > 0 && char_is_whitespace(s[j - 1])
        invariant
            j <= s@.len(),
            trim_end(s@) == trim_end(s@.take(j as int)),
        decreases j,
    {
        proof {
            assert(s@.take(j as int).drop_last() =~= s@.take(j - 1));
        }
        j = j - 1;
    }
    slice_subrange(s, 0, j)
}

pub(crate) fn trimmed<'a>(s: &'a [char]) -> (r: &'a [char])
    ensures
        r@ == trim(s@),
{
    trimmed_end(trimmed_start(s))
}

pub(crate) fn without_heading<'a>(s: &'a [char]) -> (r: &'a [char])
    ensures
        r@ == strip_heading(s@),
{
    let n = s.len();
    let mut i: usize = 0;
    proof {
        assert(s@.skip(0) =~= s@);
    }
    while i < n && s[i] == '#'
        invariant
            i <= n,
            n == s@.len(),
            strip_heading(s@) == strip_heading(s@.skip(i as int)),
        decreases n - i,
    {
        proof {
            assert(s@.skip(i as int).drop_first() =~= s@.skip(i + 1));
        }
        i = i + 1;
    }
    slice_subrange(s, i, n)
}

/// Tells whether `s` holds nothing but whitespace.
pub(crate) fn blank(s: &[char]) -> (r: bool)
    ensures
        r == is_blank(s@),
{
    let n = s.len();
    let mut i: usize = 0;
    while i < n
        invariant
            i <= n,
            n == s@.len(),
            forall|k: int| 0 <= k < i ==> is_whitespace(#[trigger] s@[k]),
        decreases n - i,
    {
        if !char_is_whitespace(s[i]) {
            return false;
        }
        i = i + 1;
    }
    true
}

pub(crate) fn count_words(s: &[char]) -> (count: usize)
    ensures
        count == words_in(s@),
{
    let n = s.len();
    let mut count: usize = 0;
    let mut i: usize = 0;
    let mut after_space = true;
    while i < n
        invariant
            i <= n,
            n == s@.len(),
            count <= i,
            count == words_in(s@.take(i as int)),
            after_space == (i == 0 || is_whitespace(s@[i - 1])),
        decreases n - i,
    {
        let space = char_is_whitespace(s[i]);
        proof {
            assert(s@.take(i + 1).drop_last() =~= s@.take(i as int));
            assert(is_word_start(s@.take(i + 1), i as int) == (!space && after_space));
        }
        if !space && after_space {
            count = count + 1;
        }
        after_space = space;
        i = i + 1;
    }
    proof {
        assert(s@.take(n as int) =~= s@);
    }
    count
}

pub(crate) fn title_chars<'a>(s: &'a [char]) -> (r: &'a [char])
    ensures
        r@ == title_of(s@),
{
    let n = s.len();
    let mut pos: usize = 0;
    proof {
        assert(s@.skip(0) =~= s@);
    }
    loop
        invariant
            pos <= n,
            n == s@.len(),
            title_of(s@) == title_of(s@.skip(pos as int)),
        decreases n - pos,
    {
        let mut end: usize = pos;
        while end < n && s[end] != '\n'
            invariant
                pos <= end <= n,
                n == s@.len(),
                first_line_len(s@.skip(pos as int)) == (end - pos) + first_line_len(
                    s@.skip(end as int),
                ),
            decreases n - end,
        {
            proof {
                assert(s@.skip(end as int).drop_first() =~= s@.skip(end + 1));
            }
            end = end + 1;
        }
        let line = slice_subrange(s, pos, end);
        proof {
            assert(line@ =~= s@.skip(pos as int).take(end - pos));
        }
        let t = trimmed(without_heading(trimmed(line)));
        if t.len() > 0 {
            if t.len() > TITLE_LIMIT {
                return slice_subrange(t, 0, TITLE_LIMIT);
            }
            return t;
        }
        if end >= n {
            return slice_subrange(s, 0, 0);
        }
        proof {
            assert(s@.skip(pos as int).skip(end - pos + 1) =~= s@.skip(end + 1));
        }
        pos = end + 1;
    }
}

/// Tells whether `content` is blank: empty once whitespace is trimmed.
pub fn is_blank_text(content: &str) -> (r: bool)
    ensures
        r == is_blank(content@),
{
    let chars = chars_of(content);
    blank(chars.as_slice())
}

/// Counts the words of `content`.
pub fn word_count(content: &str) -> (count: usize)
    ensures
        count == words_in(content@),
{
    let chars = chars_of(content);
    count_words(chars.as_slice())
}

/// Counts the characters of `content`.
pub fn char_count(content: &str) -> (count: usize)
    ensures
        count == content@.len(),
{
    let chars = chars_of(content);
    chars.len()
}

/// Derives the title of `content`.
pub fn extract_title(content: &str) -> (title: String)
    ensures
        title@ == title_of(content@),
{
    let chars = chars_of(content);
    string_of(title_chars(chars.as_slice()))
}

} // verus!
