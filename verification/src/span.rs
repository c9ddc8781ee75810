//! Source positions and their conversion to character and byte offsets.
//!
//! The host-language tokenizer reports positions as a 1-indexed line and a
//! 0-indexed column counted in Unicode scalar values.  Lines may contain
//! multi-byte characters, so converting a position to a byte offset requires
//! summing the UTF-8 encoded length of every preceding character; converting
//! to a character offset only requires locating the line start.

use vstd::prelude::*;

verus! {

/// A source position: 1-indexed line, 0-indexed column in Unicode scalar values.
#[derive(Clone, Copy, PartialEq, Eq, Structural, Debug)]
pub struct LineCol {
    pub line: usize,
    pub column: usize,
}

/// A source span: where a token or node starts and ends.
#[derive(Clone, Copy, PartialEq, Eq, Structural, Debug)]
pub struct Span {
    pub start: LineCol,
    pub end: LineCol,
}

/// Number of bytes the UTF-8 encoding of `c` occupies: 1 for code points
/// below U+0080, 2 below U+0800, 3 below U+10000, and 4 otherwise.
pub open spec fn spec_char_utf8_len(c: char) -> int {
    if (c as u32) < 0x80 {
        1
    } else if (c as u32) < 0x800 {
        2
    } else if (c as u32) < 0x10000 {
        3
    } else {
        4
    }
}

/// Total UTF-8 byte length of the first `n` characters of `text`.
pub open spec fn spec_utf8_len(text: Seq<char>, n: int) -> int
    decreases n,
{
    if n <= 0 {
        0
    } else {
        spec_utf8_len(text, n - 1) + spec_char_utf8_len(text[n - 1])
    }
}

/// The least index `j` with `i <= j` such that `text[j]` is a newline,
/// or `text.len()` if the rest of `text` holds none.
pub open spec fn spec_next_newline(text: Seq<char>, i: int) -> int
    decreases text.len() - i,
{
    if i < 0 {
        spec_next_newline(text, 0)
    } else if i >= text.len() {
        text.len() as int
    } else if text[i] == '\n' {
        i
    } else {
        spec_next_newline(text, i + 1)
    }
}

/// Character offset at which the 1-indexed line `line` starts.
/// Line 1 starts at offset 0; line `k + 1` starts just past the `k`-th newline.
/// A line number past the end of `text` yields `text.len()`.
pub open spec fn spec_line_start(text: Seq<char>, line: int) -> int
    decreases line,
{
    if line <= 1 {
        0
    } else {
        let prev = spec_line_start(text, line - 1);
        let j = spec_next_newline(text, prev);
        if j < text.len() {
            j + 1
        } else {
            text.len() as int
        }
    }
}

/// Character offset just past the content of `line`: the position of the
/// line's newline, or of the carriage return directly before it.
pub open spec fn spec_line_content_end(text: Seq<char>, line: int) -> int {
    let s = spec_line_start(text, line);
    let e = spec_next_newline(text, s);
    if e > s && text[e - 1] == '\r' {
        e - 1
    } else {
        e
    }
}

/// Character offset of a position: the line's start plus the column, where a
/// column past the line's content saturates at the end of the content.
pub open spec fn spec_line_col_char(text: Seq<char>, lc: LineCol) -> int {
    let s = spec_line_start(text, lc.line as int);
    let e = spec_line_content_end(text, lc.line as int);
    if s + lc.column <= e {
        s + lc.column
    } else {
        e
    }
}

proof fn lemma_next_newline_bounds(text: Seq<char>, i: int)
    requires
        0 <= i <= text.len(),
    ensures
        i <= spec_next_newline(text, i) <= text.len(),
    decreases text.len() - i,
{
    if i < text.len() && text[i] != '\n' {
        lemma_next_newline_bounds(text, i + 1);
    }
}

proof fn lemma_line_start_bounds(text: Seq<char>, line: int)
    ensures
        0 <= spec_line_start(text, line) <= text.len(),
    decreases line,
{
    if line > 1 {
        lemma_line_start_bounds(text, line - 1);
        lemma_next_newline_bounds(text, spec_line_start(text, line - 1));
    }
}

/// The character offset of a position is always within the text.
pub proof fn lemma_line_col_char_bounds(text: Seq<char>, lc: LineCol)
    ensures
        0 <= spec_line_col_char(text, lc) <= text.len(),
{
    lemma_line_start_bounds(text, lc.line as int);
    lemma_next_newline_bounds(text, spec_line_start(text, lc.line as int));
}

/// The characters of `s`, in order, as a vector.
pub fn str_chars(s: &str) -> (v: Vec<char>)
    ensures
        v@ == s@,
{
    let n: usize = s.unicode_len();
    let mut v: Vec<char> = Vec::new();
    let mut i: usize = 0;
    while i < n
        invariant
            n == s@.len(),
            i <= n,
            v@ == s@.subrange(0, i as int),
        decreases n - i,
    {
        v.push(s.get_char(i));
        i = i + 1;
        proof {
            assert(v@ =~= s@.subrange(0, i as int));
        }
    }
    proof {
        assert(v@ =~= s@);
    }
    v
}

/// UTF-8 encoded length of one character.
pub fn char_utf8_len(c: char) -> (n: usize)
    ensures
        n == spec_char_utf8_len(c),
{
    if (c as u32) < 0x80 {
        1
    } else if (c as u32) < 0x800 {
        2
    } else if (c as u32) < 0x10000 {
        3
    } else {
        4
    }
}

/// Character offset at which the 1-indexed `line` starts in `text`.
pub fn line_start_char(text: &Vec<char>, line: usize) -> (r: usize)
    ensures
        r == spec_line_start(text@, line as int),
        r <= text@.len(),
{
    let mut k: usize = 1;
    let mut cur: usize = 0;
    while k < line
        invariant
            1 <= k,
            line <= 1 ==> k == 1 && cur == 0,
            line > 1 ==> k <= line,
            cur <= text@.len(),
            cur == spec_line_start(text@, k as int),
        decreases line - k,
    {
        let mut j: usize = cur;
        while j < text.len() && text[j] != '\n'
            invariant
                cur <= j <= text@.len(),
                spec_next_newline(text@, cur as int) == spec_next_newline(text@, j as int),
            decreases text@.len() - j,
        {
            j = j + 1;
        }
        if j < text.len() {
            cur = j + 1;
        } else {
            cur = j;
        }
        k = k + 1;
        proof {
            assert(spec_line_start(text@, k as int) == cur as int);
        }
    }
    proof {
        if line <= 1 {
            assert(spec_line_start(text@, line as int) == 0);
        } else {
            assert(k == line);
            assert(cur == spec_line_start(text@, k as int));
        }
        assert(cur == spec_line_start(text@, line as int));
    }
    cur
}

/// A position that lies within the text: a 1-indexed line and a column no
/// greater than that line's content.  Positions outside this range are a
/// contract breach by the position oracle.
pub open spec fn spec_pos_in_text(text: Seq<char>, lc: LineCol) -> bool {
    &&& lc.line >= 1
    &&& spec_line_start(text, lc.line as int) + lc.column <= spec_line_content_end(
        text,
        lc.line as int,
    )
}

/// Character offset of the position `lc` in `text`.  Total by design: the
/// gap scanner reads oracle-reported token boundaries with it, so a column
/// past the line's content reads as the content's end rather than
/// mis-translating into a neighbouring line.
pub fn line_col_to_char(text: &Vec<char>, lc: LineCol) -> (r: usize)
    ensures
        r == spec_line_col_char(text@, lc),
        r <= text@.len(),
{
    let s: usize = line_start_char(text, lc.line);
    let mut e: usize = s;
    proof {
        lemma_next_newline_bounds(text@, s as int);
    }
    while e < text.len() && text[e] != '\n'
        invariant
            s <= e <= text@.len(),
            spec_next_newline(text@, s as int) == spec_next_newline(text@, e as int),
        decreases text@.len() - e,
    {
        e = e + 1;
    }
    let content_end: usize = if e > s && text[e - 1] == '\r' {
        e - 1
    } else {
        e
    };
    if lc.column <= content_end - s {
        s + lc.column
    } else {
        content_end
    }
}

/// Byte offset of the position `lc` in `text`: the summed UTF-8 length of all
/// characters before it, as the original buffer stores them.  The position
/// must lie within the text; one that does not is a precondition violation
/// from a tree that does not match the buffer.
pub fn line_column_to_byte(text: &Vec<char>, lc: LineCol) -> (r: usize)
    requires
        text@.len() <= usize::MAX / 4,
        spec_pos_in_text(text@, lc),
    ensures
        r == spec_utf8_len(text@, spec_line_col_char(text@, lc)),
        spec_line_col_char(text@, lc) == spec_line_start(text@, lc.line as int) + lc.column,
{
    let end: usize = line_col_to_char(text, lc);
    let mut i: usize = 0;
    let mut total: usize = 0;
    while i < end
        invariant
            i <= end <= text@.len(),
            text@.len() <= usize::MAX / 4,
            total == spec_utf8_len(text@, i as int),
            total <= 4 * i,
        decreases end - i,
    {
        total = total + char_utf8_len(text[i]);
        i = i + 1;
    }
    total
}

/// The characters between two positions: empty when they are out of order.
pub open spec fn spec_text_between(text: Seq<char>, start: LineCol, end: LineCol) -> Seq<char> {
    let a = spec_line_col_char(text, start);
    let b = spec_line_col_char(text, end);
    if a <= b {
        text.subrange(a, b)
    } else {
        Seq::<char>::empty()
    }
}

/// The text between two positions, as the original buffer holds it.  Returns
/// the empty string when the positions are out of order.
pub fn text_between(source: &str, text: &Vec<char>, start: LineCol, end: LineCol) -> (r: String)
    requires
        text@ == source@,
    ensures
        r@ == spec_text_between(text@, start, end),
{
    let a: usize = line_col_to_char(text, start);
    let b: usize = line_col_to_char(text, end);
    if a <= b {
        let sub: &str = source.substring_char(a, b);
        String::from_str(sub)
    } else {
        let r = String::new();
        proof {
            assert(r@ =~= Seq::<char>::empty());
        }
        r
    }
}

/// Searching for a newline in a suffix mirrors searching in the whole text.
pub proof fn lemma_next_newline_skip(text: Seq<char>, p: int, i: int)
    requires
        0 <= p,
        0 <= i,
        p + i <= text.len(),
    ensures
        spec_next_newline(text.skip(p), i) == spec_next_newline(text, p + i) - p,
    decreases text.len() - p - i,
{
    if p + i < text.len() && text[p + i] != '\n' {
        lemma_next_newline_skip(text, p, i + 1);
    }
}

/// First offset at or past `j` whose character is not a tab or a space.
pub open spec fn spec_indent_end(text: Seq<char>, j: int) -> int
    decreases text.len() - j,
{
    if j < 0 || j >= text.len() {
        if j < 0 {
            0
        } else {
            text.len() as int
        }
    } else if text[j] == '\t' || text[j] == ' ' {
        spec_indent_end(text, j + 1)
    } else {
        j
    }
}

/// Number of tabs among the characters of `[s, e)`.
pub open spec fn spec_count_tabs(text: Seq<char>, s: int, e: int) -> int
    decreases e - s,
{
    if s < 0 || s >= e || e > text.len() {
        0
    } else {
        (if text[s] == '\t' {
            1int
        } else {
            0
        }) + spec_count_tabs(text, s + 1, e)
    }
}

} // verus!
