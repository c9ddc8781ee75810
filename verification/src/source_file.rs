//! Applying the edits: replacing each formatted occurrence's span in the
//! original text, in ascending order, leaving every character outside the
//! replaced ranges unchanged.

use vstd::prelude::*;

use crate::collect_comments::{spec_gap_table, GEntry};
use crate::formatter::mac::{format_macro, spec_view_macro_toks, ViewMacro};
use crate::formatter::{settings_view, spec_printer_cfg, FState, FormatterSettings};
use crate::printer::spec_render;
use crate::span::{line_col_to_char, spec_line_col_char, str_chars};

verus! {

/// Why formatting a source failed: the construct's contents did not parse,
/// or the spans the parser reported do not fit the text.
#[derive(Debug)]
pub enum FormatError {
    ParseError(String),
    InvalidEdits,
}

impl FormatError {
    /// A short description of the failure.
    pub fn message(&self) -> (r: String)
        ensures
            match self {
                FormatError::ParseError(m) => r@ == m@,
                FormatError::InvalidEdits => r@ == "edit ranges do not fit the source"@,
            },
    {
        match self {
            FormatError::ParseError(m) => String::from_str(m.as_str()),
            FormatError::InvalidEdits => String::from_str("edit ranges do not fit the source"),
        }
    }
}

/// One replacement: the half-open range `[start, end)` of the original
/// text, counted in Unicode scalar values, and the text that replaces it.
/// A consumer that needs byte offsets converts each endpoint with
/// `line_column_to_byte`, since a range in scalar values shifts under
/// multi-byte characters.
#[derive(Debug)]
pub struct TextEdit {
    pub start: usize,
    pub end: usize,
    pub new_text: String,
}

/// The mathematical value of an edit.
pub ghost struct GEdit {
    pub start: int,
    pub end: int,
    pub new_text: Seq<char>,
}

impl View for TextEdit {
    type V = GEdit;

    open spec fn view(&self) -> GEdit {
        GEdit { start: self.start as int, end: self.end as int, new_text: self.new_text@ }
    }
}

/// The mathematical values of an edit list, in order.
pub open spec fn gedits_of(v: Seq<TextEdit>) -> Seq<GEdit> {
    Seq::new(v.len(), |i: int| v[i]@)
}

/// Edits fit the text: each range lies within it, is ordered, and starts at
/// or after the previous range's end.
pub open spec fn spec_edits_wf(text: Seq<char>, edits: Seq<GEdit>) -> bool {
    forall|i: int|
        0 <= i < edits.len() ==> {
            &&& (#[trigger] edits[i]).start <= edits[i].end <= text.len()
            &&& (if i == 0 {
                0
            } else {
                edits[i - 1].end
            }) <= edits[i].start
        }
}

/// The text after the edits from index `i` on, `pos` standing at the end of
/// the previous replaced range: the untouched run up to each edit's start,
/// its replacement, and finally the untouched tail.
pub open spec fn spec_apply(text: Seq<char>, edits: Seq<GEdit>, i: int, pos: int) -> Seq<char>
    decreases edits.len() - i,
{
    if i < 0 || i >= edits.len() {
        text.subrange(pos, text.len() as int)
    } else {
        text.subrange(pos, edits[i].start) + edits[i].new_text + spec_apply(
            text,
            edits,
            i + 1,
            edits[i].end,
        )
    }
}

/// The text with every edit applied.
pub open spec fn spec_apply_edits(text: Seq<char>, edits: Seq<GEdit>) -> Seq<char> {
    spec_apply(text, edits, 0, 0)
}

/// Applying no edits returns the text unchanged.
pub proof fn lemma_apply_no_edits(text: Seq<char>)
    ensures
        spec_apply_edits(text, Seq::<GEdit>::empty()) == text,
{
    assert(spec_apply_edits(text, Seq::<GEdit>::empty()) =~= text);
}

/// Apply an ordered list of non-overlapping edits.  Returns `None` exactly
/// when the edits do not fit the text: a range out of bounds, reversed, or
/// starting before the previous range's end.
pub fn apply_edits(source: &str, edits: &Vec<TextEdit>) -> (r: Option<String>)
    ensures
        r is Some <==> spec_edits_wf(source@, gedits_of(edits@)),
        r is Some ==> r.unwrap()@ == spec_apply_edits(source@, gedits_of(edits@)),
{
    let ghost g = gedits_of(edits@);
    let n: usize = edits.len();
    let len: usize = source.unicode_len();
    let mut i: usize = 0;
    let mut prev_end: usize = 0;
    while i < n
        invariant
            i <= n,
            n == edits@.len(),
            g == gedits_of(edits@),
            len == source@.len(),
            prev_end == if i == 0 {
                0int
            } else {
                g[i - 1].end
            },
            prev_end <= len,
            forall|k: int|
                0 <= k < i ==> {
                    &&& (#[trigger] g[k]).start <= g[k].end <= source@.len()
                    &&& (if k == 0 {
                        0
                    } else {
                        g[k - 1].end
                    }) <= g[k].start
                },
        decreases n - i,
    {
        let e_start: usize = edits[i].start;
        let e_end: usize = edits[i].end;
        if !(prev_end <= e_start && e_start <= e_end && e_end <= len) {
            proof {
                if spec_edits_wf(source@, g) {
                    assert(g[i as int].start <= g[i as int].end <= source@.len());
                    assert((if i == 0 {
                        0int
                    } else {
                        g[i as int - 1].end
                    }) <= g[i as int].start);
                    assert(false);
                }
            }
            return None;
        }
        prev_end = e_end;
        i = i + 1;
    }
    let mut out: String = String::new();
    let mut pos: usize = 0;
    let mut k: usize = 0;
    proof {
        assert(out@ + spec_apply(source@, g, 0, 0) =~= spec_apply_edits(source@, g));
    }
    while k < n
        invariant
            k <= n,
            n == edits@.len(),
            g == gedits_of(edits@),
            len == source@.len(),
            spec_edits_wf(source@, g),
            pos == if k == 0 {
                0int
            } else {
                g[k - 1].end
            },
            pos <= len,
            out@ + spec_apply(source@, g, k as int, pos as int) == spec_apply_edits(source@, g),
        decreases n - k,
    {
        let e_start: usize = edits[k].start;
        let e_end: usize = edits[k].end;
        out.append(source.substring_char(pos, e_start));
        out.append(edits[k].new_text.as_str());
        proof {
            assert(out@ + spec_apply(source@, g, k as int + 1, e_end as int) =~= spec_apply_edits(
                source@,
                g,
            ));
        }
        pos = e_end;
        k = k + 1;
    }
    out.append(source.substring_char(pos, len));
    proof {
        assert(out@ =~= spec_apply_edits(source@, g));
    }
    Some(out)
}

/// Total shift the first `i` edits add to positions after them: the length
/// of each replacement less the length of the range it replaced.
pub open spec fn spec_offset_after(edits: Seq<GEdit>, i: int) -> int
    decreases i,
{
    if i <= 0 {
        0
    } else {
        spec_offset_after(edits, i - 1) + edits[i - 1].new_text.len() - (edits[i - 1].end
            - edits[i - 1].start)
    }
}

/// Locality of editing: every character outside the replaced ranges appears
/// unchanged in the result, shifted only by the size difference of the
/// replacements before it.  For any position `j` of the original text that
/// lies between the `i`-th edit's start and the previous edit's end, the
/// result holds the original character at `j` plus the offset of the first
/// `i` edits; with `i` past the last edit this covers the whole tail.
pub proof fn lemma_edits_locality(text: Seq<char>, edits: Seq<GEdit>, i: int, j: int)
    requires
        spec_edits_wf(text, edits),
        0 <= i <= edits.len(),
        (if i == 0 {
            0
        } else {
            edits[i - 1].end
        }) <= j,
        j < (if i < edits.len() {
            edits[i].start
        } else {
            text.len() as int
        }),
    ensures
        0 <= j + spec_offset_after(edits, i) < spec_apply_edits(text, edits).len(),
        spec_apply_edits(text, edits)[j + spec_offset_after(edits, i)] == text[j],
{
    lemma_locality_from(text, edits, 0, 0, i, j);
}

/// The length of the suffix rendering from edit `i` with cursor `pos`.
proof fn lemma_apply_len(text: Seq<char>, edits: Seq<GEdit>, i: int, pos: int)
    requires
        spec_edits_wf(text, edits),
        0 <= i <= edits.len(),
        0 <= pos <= text.len(),
        pos <= (if i < edits.len() {
            edits[i].start
        } else {
            text.len() as int
        }),
    ensures
        spec_apply(text, edits, i, pos).len() == text.len() - pos + spec_offset_after(
            edits,
            edits.len() as int,
        ) - spec_offset_after(edits, i),
    decreases edits.len() - i,
{
    if i < edits.len() {
        lemma_apply_len(text, edits, i + 1, edits[i].end);
        assert(spec_offset_after(edits, i + 1) == spec_offset_after(edits, i)
            + edits[i].new_text.len() - (edits[i].end - edits[i].start));
    }
}

/// Locality, generalized over the suffix the recursion renders.
#[verifier::rlimit(100)]
proof fn lemma_locality_from(text: Seq<char>, edits: Seq<GEdit>, k: int, pos: int, i: int, j: int)
    requires
        spec_edits_wf(text, edits),
        0 <= k <= i <= edits.len(),
        0 <= pos <= text.len(),
        pos <= (if k < edits.len() {
            edits[k].start
        } else {
            text.len() as int
        }),
        pos <= (if k == 0 {
            0
        } else {
            edits[k - 1].end
        }),
        (if i == 0 {
            0
        } else {
            edits[i - 1].end
        }) <= j,
        j < (if i < edits.len() {
            edits[i].start
        } else {
            text.len() as int
        }),
        k < i ==> pos <= edits[k].start,
        k == i ==> pos <= j,
    ensures
        0 <= j - pos + spec_offset_after(edits, i) - spec_offset_after(edits, k) < spec_apply(
            text,
            edits,
            k,
            pos,
        ).len(),
        spec_apply(text, edits, k, pos)[j - pos + spec_offset_after(edits, i) - spec_offset_after(
            edits,
            k,
        )] == text[j],
    decreases edits.len() - k,
{
    lemma_apply_len(text, edits, k, pos);
    if k == i {
        if k < edits.len() {
            lemma_apply_len(text, edits, k + 1, edits[k].end);
        }
        assert(spec_apply(text, edits, k, pos)[j - pos] == text.subrange(
            pos,
            if k < edits.len() {
                edits[k].start
            } else {
                text.len() as int
            },
        )[j - pos]);
    } else {
        lemma_locality_from(text, edits, k + 1, edits[k].end, i, j);
        let tail = spec_apply(text, edits, k + 1, edits[k].end);
        let head_len = edits[k].start - pos + edits[k].new_text.len();
        let idx = j - pos + spec_offset_after(edits, i) - spec_offset_after(edits, k);
        assert(spec_offset_after(edits, k + 1) == spec_offset_after(edits, k)
            + edits[k].new_text.len() - (edits[k].end - edits[k].start));
        assert(idx - head_len == j - edits[k].end + spec_offset_after(edits, i)
            - spec_offset_after(edits, k + 1));
        assert(spec_apply(text, edits, k, pos)[idx] == tail[idx - head_len]);
    }
}

/// The edit one occurrence induces: its span's character range and the
/// rendering of the occurrence against the source.
pub open spec fn spec_occurrence_edit(
    settings: FormatterSettings,
    text: Seq<char>,
    m: ViewMacro,
) -> GEdit {
    GEdit {
        start: spec_line_col_char(text, m.span.start),
        end: spec_line_col_char(text, m.span.end),
        new_text: spec_render(
            spec_printer_cfg(settings, Some(text)),
            spec_view_macro_toks(
                settings_view(settings),
                Some(text),
                spec_gap_table(text, m.token_spans@),
                FState { next: 0, line_offset: None },
                m,
            ).0,
        ),
    }
}

/// The edits a run of occurrences induces, one per occurrence in order.
pub open spec fn spec_occurrence_edits(
    settings: FormatterSettings,
    text: Seq<char>,
    macros: Seq<ViewMacro>,
) -> Seq<GEdit> {
    Seq::new(macros.len(), |i: int| spec_occurrence_edit(settings, text, macros[i]))
}

/// Format every collected occurrence of the construct and stitch the
/// replacements back into the source.  Each edit's range is the occurrence's
/// own span and its text is that occurrence's rendering; the result is the
/// source with exactly those ranges replaced.  Succeeds exactly when the
/// occurrences' spans translate to ordered, non-overlapping ranges — always,
/// for spans the parser reported against this source — and in particular a
/// source with no occurrences at all comes back unchanged.
pub fn format_source(source: &str, macros: &Vec<ViewMacro>, settings: &FormatterSettings) -> (r:
    Option<(String, Vec<TextEdit>)>)
    ensures
        r is Some <==> spec_edits_wf(
            source@,
            spec_occurrence_edits(*settings, source@, macros@),
        ),
        r is Some ==> gedits_of(r.unwrap().1@) == spec_occurrence_edits(
            *settings,
            source@,
            macros@,
        ),
        r is Some ==> r.unwrap().0@ == spec_apply_edits(
            source@,
            spec_occurrence_edits(*settings, source@, macros@),
        ),
        r is Some ==> r.unwrap().1@.len() == macros@.len(),
        macros@.len() == 0 ==> r is Some && r.unwrap().0@ == source@,
{
    let ghost goal = spec_occurrence_edits(*settings, source@, macros@);
    let chars: Vec<char> = str_chars(source);
    let mut edits: Vec<TextEdit> = Vec::new();
    let n: usize = macros.len();
    let mut i: usize = 0;
    while i < n
        invariant
            i <= n,
            n == macros@.len(),
            edits@.len() == i,
            chars@ == source@,
            goal == spec_occurrence_edits(*settings, source@, macros@),
            forall|k: int| 0 <= k < i ==> #[trigger] edits@[k]@ == goal[k],
        decreases n - i,
    {
        let start: usize = line_col_to_char(&chars, macros[i].span.start);
        let end: usize = line_col_to_char(&chars, macros[i].span.end);
        let new_text: String = format_macro(&macros[i], settings, Some(source));
        edits.push(TextEdit { start, end, new_text });
        i = i + 1;
    }
    proof {
        assert(gedits_of(edits@) =~= goal);
        if n == 0 {
            assert(goal =~= Seq::<GEdit>::empty());
            lemma_apply_no_edits(source@);
        }
    }
    match apply_edits(source, &edits) {
        Some(out) => Some((out, edits)),
        None => None,
    }
}

} // verus!
