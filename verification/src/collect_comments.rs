//! Recovering comments and blank lines from the gaps between tokens.
//!
//! The tokenizer reports a span for every token.  Between two consecutive
//! tokens whose end and start lie on different lines there is a "gap": source
//! text that holds only whitespace and `//`-style comments.  The reconciler
//! scans every gap, records for each line either the recovered comment text
//! or a blank-line marker, and stores them in a table ordered by line.  The
//! formatter later drains the table through a cursor, so each line is emitted
//! at most once and in source order.

use vstd::prelude::*;

use crate::span::{spec_line_col_char, spec_line_content_end, spec_line_start, LineCol, Span};
use crate::span::{line_col_to_char, line_start_char};

verus! {

/// One recovered line of a gap: a comment, or a blank line.
#[derive(Debug)]
pub struct GapEntry {
    pub line: usize,
    pub comment: Option<String>,
}

/// The mathematical value of a gap entry.
pub ghost struct GEntry {
    pub line: int,
    pub comment: Option<Seq<char>>,
}

impl View for GapEntry {
    type V = GEntry;

    open spec fn view(&self) -> GEntry {
        GEntry {
            line: self.line as int,
            comment: match &self.comment {
                Some(c) => Some(c@),
                None => None,
            },
        }
    }
}

/// The gap table: entries ordered by strictly increasing line, and a cursor
/// marking how far the formatter has drained it.
pub struct GapTable {
    pub entries: Vec<GapEntry>,
    pub next: usize,
}

/// The mathematical values of the entries, in order.
pub open spec fn gentries_of(v: Seq<GapEntry>) -> Seq<GEntry> {
    Seq::new(v.len(), |i: int| v[i]@)
}

impl View for GapTable {
    type V = Seq<GEntry>;

    open spec fn view(&self) -> Seq<GEntry> {
        gentries_of(self.entries@)
    }
}

impl GapTable {
    /// Entries are strictly ordered by line and the cursor is in range.
    pub open spec fn wf(&self) -> bool {
        &&& self.next <= self.entries@.len()
        &&& forall|i: int, j: int|
            0 <= i < j < self@.len() ==> #[trigger] self@[i].line < #[trigger] self@[j].line
    }

    /// An empty table.
    pub fn new() -> (r: GapTable)
        ensures
            r@ == Seq::<GEntry>::empty(),
            r.next == 0,
            r.wf(),
    {
        let r = GapTable { entries: Vec::new(), next: 0 };
        proof {
            assert(r@ =~= Seq::<GEntry>::empty());
        }
        r
    }
}

/// Whether `c` has the Unicode White_Space property, the set `str::trim`
/// removes.
pub open spec fn spec_is_ws(c: char) -> bool {
    ||| c == ' '
    ||| ('\u{0009}' <= c && c <= '\u{000d}')
    ||| c == '\u{0085}'
    ||| c == '\u{00a0}'
    ||| c == '\u{1680}'
    ||| ('\u{2000}' <= c && c <= '\u{200a}')
    ||| c == '\u{2028}'
    ||| c == '\u{2029}'
    ||| c == '\u{202f}'
    ||| c == '\u{205f}'
    ||| c == '\u{3000}'
}

/// Executable test for `spec_is_ws`.
pub fn is_ws_char(c: char) -> (r: bool)
    ensures
        r == spec_is_ws(c),
{
    c == ' ' || ('\u{0009}' <= c && c <= '\u{000d}') || c == '\u{0085}' || c == '\u{00a0}'
        || c == '\u{1680}' || ('\u{2000}' <= c && c <= '\u{200a}') || c == '\u{2028}'
        || c == '\u{2029}' || c == '\u{202f}' || c == '\u{205f}' || c == '\u{3000}'
}

/// First offset in `[a, b)` whose character is not whitespace.
pub open spec fn spec_trim_start(text: Seq<char>, a: int, b: int) -> int
    decreases b - a,
{
    if a >= b {
        b
    } else if spec_is_ws(text[a]) {
        spec_trim_start(text, a + 1, b)
    } else {
        a
    }
}

/// Offset just past the last non-whitespace character of `[a, b)`.
pub open spec fn spec_trim_end(text: Seq<char>, a: int, b: int) -> int
    decreases b - a,
{
    if b <= a {
        a
    } else if spec_is_ws(text[b - 1]) {
        spec_trim_end(text, a, b - 1)
    } else {
        b
    }
}

/// First offset `p` in `[a, b - 1)` where `//` starts, or `b` if none.
pub open spec fn spec_find_comment(text: Seq<char>, a: int, b: int) -> int
    decreases b - a,
{
    if a < 0 || a + 1 >= b {
        b
    } else if text[a] == '/' && text[a + 1] == '/' {
        a
    } else {
        spec_find_comment(text, a + 1, b)
    }
}

/// The comment recovered from the character range `[a, b)`: the text after
/// the first `//`, trimmed of surrounding whitespace; `None` when the range
/// holds no `//`.
pub open spec fn spec_line_comment(text: Seq<char>, a: int, b: int) -> Option<Seq<char>> {
    let p = spec_find_comment(text, a, b);
    if p < b {
        let s = spec_trim_start(text, p + 2, b);
        let e = spec_trim_end(text, s, b);
        Some(text.subrange(s, e))
    } else {
        None
    }
}

/// The entry a gap `[ga, gb)` records for the 0-indexed line `li0`:
/// `None` when the line gets no entry, `Some(c)` for a comment or blank
/// marker.  A line at the gap's boundary (shared with a token) is recorded
/// only when it holds a comment.
pub open spec fn spec_gap_entry(
    text: Seq<char>,
    ga: int,
    gb: int,
    li0: int,
    first: int,
    last: int,
) -> Option<Option<Seq<char>>> {
    let ls = spec_line_start(text, li0 + 1);
    let le = spec_line_content_end(text, li0 + 1);
    let a = if ga >= ls {
        ga
    } else {
        ls
    };
    let b0 = if gb <= le {
        gb
    } else {
        le
    };
    let b = if b0 >= a {
        b0
    } else {
        a
    };
    let c = spec_line_comment(text, a, b);
    if c is None && (li0 == first || li0 == last) {
        None
    } else {
        Some(c)
    }
}

/// Add an entry to a table ordered by line: replace the last entry when the
/// line repeats, ignore data that arrives out of order.
pub open spec fn spec_table_add(t: Seq<GEntry>, line: int, c: Option<Seq<char>>) -> Seq<GEntry> {
    if t.len() > 0 && t.last().line == line {
        t.drop_last().push(GEntry { line, comment: c })
    } else if t.len() > 0 && t.last().line > line {
        t
    } else {
        t.push(GEntry { line, comment: c })
    }
}

/// The table after a gap `[ga, gb)` has recorded its lines from `li0` up
/// through `last`.
pub open spec fn spec_gap_fold(
    t: Seq<GEntry>,
    text: Seq<char>,
    ga: int,
    gb: int,
    li0: int,
    first: int,
    last: int,
) -> Seq<GEntry>
    decreases last - li0 + 1,
{
    if li0 > last {
        t
    } else {
        let t1 = match spec_gap_entry(text, ga, gb, li0, first, last) {
            Some(c) => spec_table_add(t, li0, c),
            None => t,
        };
        spec_gap_fold(t1, text, ga, gb, li0 + 1, first, last)
    }
}

/// The effect of the gap between a token ending at `prev_end` and the next
/// token starting at `start`: nothing when both lie on one line, else an
/// entry per gap line.
pub open spec fn spec_record_gap(
    t: Seq<GEntry>,
    text: Seq<char>,
    prev_end: LineCol,
    start: LineCol,
) -> Seq<GEntry> {
    if prev_end.line == start.line || prev_end.line == 0 || start.line == 0 {
        t
    } else {
        let ga = spec_line_col_char(text, prev_end);
        let gb = spec_line_col_char(text, start);
        let first = prev_end.line as int - 1;
        let last = start.line as int - 1;
        spec_gap_fold(t, text, ga, gb, first, first, last)
    }
}

/// The table built from a token walk: every consecutive pair of token spans
/// contributes the gap between the end of one and the start of the next.
pub open spec fn spec_gaps(t: Seq<GEntry>, text: Seq<char>, spans: Seq<Span>, k: int) -> Seq<
    GEntry,
>
    decreases spans.len() - k,
{
    if k < 1 || k >= spans.len() {
        t
    } else {
        spec_gaps(spec_record_gap(t, text, spans[k - 1].end, spans[k].start), text, spans, k + 1)
    }
}

/// The gap table of a source text and its token spans, in token order.
pub open spec fn spec_gap_table(text: Seq<char>, spans: Seq<Span>) -> Seq<GEntry> {
    spec_gaps(Seq::<GEntry>::empty(), text, spans, 1)
}

/// First index at or past `i` whose entry's line exceeds `line`, or the
/// table's length.
pub open spec fn spec_drain_end(t: Seq<GEntry>, i: int, line: int) -> int
    decreases t.len() - i,
{
    if i < 0 || i >= t.len() {
        t.len() as int
    } else if t[i].line > line {
        i
    } else {
        spec_drain_end(t, i + 1, line)
    }
}

/// First index at or past `i` that is a comment or lies past `line`.
pub open spec fn spec_skip_blanks(t: Seq<GEntry>, i: int, line: int) -> int
    decreases t.len() - i,
{
    if i < 0 || i >= t.len() {
        t.len() as int
    } else if t[i].line > line || t[i].comment is Some {
        i
    } else {
        spec_skip_blanks(t, i + 1, line)
    }
}

/// First index at or past `i` whose entry's line is at least `line`.
pub open spec fn spec_skip_below(t: Seq<GEntry>, i: int, line: int) -> int
    decreases t.len() - i,
{
    if i < 0 || i >= t.len() {
        t.len() as int
    } else if t[i].line >= line {
        i
    } else {
        spec_skip_below(t, i + 1, line)
    }
}

impl GapTable {
    /// Index just past the undrained entries on lines up to `line_index`.
    pub fn drain_end(&self, line_index: usize) -> (e: usize)
        requires
            self.wf(),
        ensures
            e == spec_drain_end(self@, self.next as int, line_index as int),
            self.next <= e <= self@.len(),
    {
        let n: usize = self.entries.len();
        let mut i: usize = self.next;
        while i < n && self.entries[i].line <= line_index
            invariant
                self.next <= i <= n,
                n == self@.len(),
                spec_drain_end(self@, self.next as int, line_index as int) == spec_drain_end(
                    self@,
                    i as int,
                    line_index as int,
                ),
            decreases n - i,
        {
            i = i + 1;
        }
        i
    }

    /// Drop undrained blank-line markers on lines up to `line_index`,
    /// stopping at the first comment.
    pub fn trim_blanks(&mut self, line_index: usize) -> (u: ())
        requires
            old(self).wf(),
        ensures
            final(self).wf(),
            final(self)@ == old(self)@,
            final(self).entries@ == old(self).entries@,
            old(self).next <= final(self).next,
            final(self).next == spec_skip_blanks(old(self)@, old(self).next as int, line_index as int),
    {
        let n: usize = self.entries.len();
        while self.next < n && self.entries[self.next].line <= line_index && matches!(
            self.entries[self.next].comment,
            None,
        )
            invariant
                old(self).next <= self.next <= n,
                n == self@.len(),
                self.entries@ == old(self).entries@,
                spec_skip_blanks(self@, self.next as int, line_index as int) == spec_skip_blanks(
                    old(self)@,
                    old(self).next as int,
                    line_index as int,
                ),
            decreases n - self.next,
        {
            self.next = self.next + 1;
        }
    }

    /// Drop undrained entries on lines before `end_line` without emitting
    /// them: the text they came from is reproduced verbatim elsewhere.
    pub fn skip_below(&mut self, end_line: usize) -> (u: ())
        requires
            old(self).wf(),
        ensures
            final(self).wf(),
            final(self)@ == old(self)@,
            final(self).entries@ == old(self).entries@,
            old(self).next <= final(self).next,
            final(self).next == spec_skip_below(old(self)@, old(self).next as int, end_line as int),
    {
        let n: usize = self.entries.len();
        while self.next < n && self.entries[self.next].line < end_line
            invariant
                old(self).next <= self.next <= n,
                n == self@.len(),
                self.entries@ == old(self).entries@,
                spec_skip_below(self@, self.next as int, end_line as int) == spec_skip_below(
                    old(self)@,
                    old(self).next as int,
                    end_line as int,
                ),
            decreases n - self.next,
        {
            self.next = self.next + 1;
        }
    }
}

/// Offset just past the content of the 1-indexed `line`, before its line
/// terminator.
fn line_content_end_at(text: &Vec<char>, line: usize) -> (r: usize)
    ensures
        r == spec_line_content_end(text@, line as int),
        r <= text@.len(),
{
    let s: usize = line_start_char(text, line);
    let mut e: usize = s;
    while e < text.len() && text[e] != '\n'
        invariant
            s <= e <= text@.len(),
            crate::span::spec_next_newline(text@, s as int) == crate::span::spec_next_newline(
                text@,
                e as int,
            ),
        decreases text@.len() - e,
    {
        e = e + 1;
    }
    if e > s && text[e - 1] == '\r' {
        e - 1
    } else {
        e
    }
}

/// The comment recovered from the character range `[a, b)` of `source`.
fn line_comment_in(source: &str, text: &Vec<char>, a: usize, b: usize) -> (r: Option<String>)
    requires
        text@ == source@,
        a <= b <= text@.len(),
    ensures
        r is Some <==> spec_line_comment(text@, a as int, b as int) is Some,
        r is Some ==> r.unwrap()@ == spec_line_comment(text@, a as int, b as int).unwrap(),
{
    let mut p: usize = a;
    while b - p >= 2 && !(text[p] == '/' && text[p + 1] == '/')
        invariant
            a <= p <= b,
            b <= text@.len(),
            spec_find_comment(text@, a as int, b as int) == spec_find_comment(
                text@,
                p as int,
                b as int,
            ),
        decreases b - p,
    {
        p = p + 1;
    }
    if b - p >= 2 {
        let mut s: usize = p + 2;
        while s < b && is_ws_char(text[s])
            invariant
                p + 2 <= s <= b <= text@.len(),
                spec_trim_start(text@, p + 2, b as int) == spec_trim_start(
                    text@,
                    s as int,
                    b as int,
                ),
            decreases b - s,
        {
            s = s + 1;
        }
        let mut e: usize = b;
        while e > s && is_ws_char(text[e - 1])
            invariant
                s <= e <= b <= text@.len(),
                spec_trim_end(text@, s as int, b as int) == spec_trim_end(text@, s as int, e as int),
            decreases e,
        {
            e = e - 1;
        }
        Some(String::from_str(source.substring_char(s, e)))
    } else {
        proof {
            assert(spec_find_comment(text@, p as int, b as int) == b as int);
        }
        None
    }
}

/// Record the gap between a token ending at `prev_end` and the next token
/// starting at `start`.
fn record_gap(t: &mut GapTable, source: &str, text: &Vec<char>, prev_end: LineCol, start: LineCol)
    requires
        old(t).wf(),
        text@ == source@,
    ensures
        final(t).wf(),
        final(t)@ == spec_record_gap(old(t)@, text@, prev_end, start),
        final(t).next == old(t).next,
{
    if prev_end.line == start.line || prev_end.line == 0 || start.line == 0 {
        return ;
    }
    let ga: usize = line_col_to_char(text, prev_end);
    let gb: usize = line_col_to_char(text, start);
    let ghost first = prev_end.line as int - 1;
    let ghost last = start.line as int - 1;
    let ghost orig = t@;
    let mut li0: usize = prev_end.line - 1;
    let lastl: usize = start.line - 1;
    proof {
        if li0 as int > last {
            assert(spec_gap_fold(t@, text@, ga as int, gb as int, li0 as int, first, last)
                == t@);
        }
    }
    while li0 <= lastl
        invariant
            t.wf(),
            t.next == old(t).next,
            text@ == source@,
            prev_end.line >= 1,
            start.line >= 1,
            prev_end.line != start.line,
            ga as int == spec_line_col_char(text@, prev_end),
            gb as int == spec_line_col_char(text@, start),
            ga <= text@.len(),
            gb <= text@.len(),
            first == prev_end.line as int - 1,
            last == start.line as int - 1,
            lastl as int == last,
            orig == old(t)@,
            first <= li0 as int,
            li0 as int <= last + 1 || li0 as int == first,
            spec_gap_fold(t@, text@, ga as int, gb as int, li0 as int, first, last)
                == spec_gap_fold(orig, text@, ga as int, gb as int, first, first, last),
        decreases last - li0 + 1,
    {
        let ls: usize = line_start_char(text, li0 + 1);
        let le: usize = line_content_end_at(text, li0 + 1);
        let a: usize = if ga >= ls {
            ga
        } else {
            ls
        };
        let b0: usize = if gb <= le {
            gb
        } else {
            le
        };
        let b: usize = if b0 >= a {
            b0
        } else {
            a
        };
        let c: Option<String> = line_comment_in(source, text, a, b);
        let ghost entry = spec_gap_entry(text@, ga as int, gb as int, li0 as int, first, last);
        let ghost before = t@;
        let boundary: bool = li0 == prev_end.line - 1 || li0 == lastl;
        if !(matches!(c, None) && boundary) {
            table_add(t, li0, c);
        }
        proof {
            match entry {
                Some(ec) => {
                    assert(t@ == spec_table_add(before, li0 as int, ec));
                },
                None => {
                    assert(t@ == before);
                },
            }
            assert(spec_gap_fold(before, text@, ga as int, gb as int, li0 as int, first, last)
                == spec_gap_fold(t@, text@, ga as int, gb as int, li0 as int + 1, first, last));
        }
        li0 = li0 + 1;
    }
}

/// Add an entry at `line` to an ordered table, as `spec_table_add` says.
fn table_add(t: &mut GapTable, line: usize, c: Option<String>) -> (u: ())
    requires
        old(t).wf(),
    ensures
        final(t).wf(),
        final(t)@ == spec_table_add(
            old(t)@,
            line as int,
            match c {
                Some(s) => Some(s@),
                None => None,
            },
        ),
        final(t).next == old(t).next,
{
    let ghost prior = t@;
    let n: usize = t.entries.len();
    if n > 0 && t.entries[n - 1].line == line {
        let _ = t.entries.pop();
        t.entries.push(GapEntry { line, comment: c });
        proof {
            assert(t@ =~= prior.drop_last().push(t@.last()));
            assert forall|i: int, j: int| 0 <= i < j < t@.len() implies #[trigger] t@[i].line
                < #[trigger] t@[j].line by {
                if j == t@.len() - 1 {
                    assert(prior[i].line < prior[prior.len() - 1].line);
                }
            }
        }
    } else if n > 0 && t.entries[n - 1].line > line {
        proof {
            assert(t@ =~= prior);
        }
    } else {
        t.entries.push(GapEntry { line, comment: c });
        proof {
            assert(t@ =~= prior.push(t@.last()));
            assert forall|i: int, j: int| 0 <= i < j < t@.len() implies #[trigger] t@[i].line
                < #[trigger] t@[j].line by {
                if j == t@.len() - 1 && prior.len() > 0 {
                    if i < prior.len() - 1 {
                        assert(prior[i].line < prior[prior.len() - 1].line);
                    }
                    assert(prior[prior.len() - 1].line < line as int);
                }
            }
        }
    }
}

/// Build the gap table of a source text from its token spans, walked in
/// order: every pair of consecutive tokens whose end and start lie on
/// different lines contributes the comments and blank lines between them.
pub fn extract_whitespace_and_comments(source: &str, text: &Vec<char>, spans: &Vec<Span>) -> (t:
    GapTable)
    requires
        text@ == source@,
    ensures
        t@ == spec_gap_table(text@, spans@),
        t.wf(),
        t.next == 0,
{
    let mut t: GapTable = GapTable::new();
    let n: usize = spans.len();
    if n == 0 {
        proof {
            assert(spec_gap_table(text@, spans@) =~= t@);
        }
        return t;
    }
    let mut k: usize = 1;
    while k < n
        invariant
            t.wf(),
            t.next == 0,
            text@ == source@,
            n == spans@.len(),
            1 <= k,
            k <= n,
            spec_gaps(t@, text@, spans@, k as int) == spec_gap_table(text@, spans@),
        decreases n - k,
    {
        record_gap(&mut t, source, text, spans[k - 1].end, spans[k].start);
        k = k + 1;
    }
    t
}

} // verus!
