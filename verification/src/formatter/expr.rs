//! Printing embedded expressions and string content.
//!
//! Expression text is reproduced as the source wrote it.  A multi-line text
//! is re-indented: every line after the first loses its leading whitespace,
//! but only up to as many characters as the column the text started at, so
//! indentation beyond the original column survives.

use vstd::prelude::*;

use crate::collect_comments::{spec_is_ws, is_ws_char};
use crate::formatter::node::spec_line0u;
use crate::formatter::tailwind::tailwind_sorted;
use crate::formatter::{
    emits, fstate_of, lemma_prefix_concat, source_view, walk_post, ExpressionFormatter, FState,
    Formatter,
};
use crate::collect_comments::{spec_skip_below, GEntry};
use crate::markup::{Expr, ExprKind};
use crate::printer::{GTok, HARD_BLANK};
use crate::span::{str_chars, Span};

verus! {

/// How many characters the re-indenting trim drops from a line: its leading
/// whitespace, but at most `max` characters.
pub open spec fn spec_trim_max(s: Seq<char>, i: int, max: int) -> int
    decreases s.len() - i,
{
    if i < 0 || i >= s.len() || i >= max || !spec_is_ws(s[i]) {
        if i < 0 {
            0
        } else {
            i
        }
    } else {
        spec_trim_max(s, i + 1, max)
    }
}

/// A string with at most `max_chars` of its leading whitespace removed.
pub fn trim_start_with_max(s: &str, max_chars: usize) -> (r: &str)
    ensures
        r@ == s@.skip(spec_trim_max(s@, 0, max_chars as int)),
{
    let n: usize = s.unicode_len();
    let mut i: usize = 0;
    while i < n && i < max_chars && is_ws_char(s.get_char(i))
        invariant
            i <= n,
            n == s@.len(),
            spec_trim_max(s@, 0, max_chars as int) == spec_trim_max(s@, i as int, max_chars as int),
        decreases n - i,
    {
        i = i + 1;
    }
    s.substring_char(i, n)
}

/// The directives that print a text whose first line started at column
/// `col`: its lines in order, later lines trimmed by at most `col` leading
/// whitespace characters, a hard break between lines.
pub open spec fn spec_string_emit(text: Seq<char>, col: int, first: bool) -> Seq<GTok>
    decreases text.len(),
{
    if text.len() == 0 {
        Seq::<GTok>::empty()
    } else {
        let j = crate::span::spec_next_newline(text, 0);
        let lend = if j < text.len() && j > 0 && text[j - 1] == '\r' {
            j - 1
        } else {
            j
        };
        let line = text.subrange(0, lend);
        let w = if first {
            line
        } else {
            line.skip(spec_trim_max(line, 0, col))
        };
        if 0 <= j && j + 1 < text.len() {
            seq![
                GTok::Text(w),
                GTok::Brk { blank: HARD_BLANK as int, dedent: 0, never: false },
            ] + spec_string_emit(text.skip(j + 1), col, false)
        } else {
            seq![GTok::Text(w)]
        }
    }
}

/// The directives a string literal prints: its original span verbatim when
/// a source buffer is at hand, else its value re-quoted.
pub open spec fn spec_literal_toks(src: Option<Seq<char>>, value: Seq<char>, span: Span) -> Seq<
    GTok,
> {
    match src {
        Some(text) => spec_string_emit(
            crate::span::spec_text_between(text, span.start, span.end),
            span.start.column as int,
            true,
        ),
        None => seq![GTok::Text("\""@)] + spec_string_emit(value, span.start.column as int, true)
            + seq![GTok::Text("\""@)],
    }
}

/// What printing an expression emits and how it moves the walk state: the
/// flush before it, then the alternate formatter's word, the quoted literal,
/// or the source text re-indented with the entries under its span dropped.
pub open spec fn spec_expr_toks(
    src: Option<Seq<char>>,
    t: Seq<GEntry>,
    st: FState,
    e: Expr,
    fmt: Option<ExpressionFormatter>,
) -> (Seq<GTok>, FState) {
    let f1 = spec_flush_at(t, st, spec_line0u(e.span.start.line));
    match e.kind {
        ExprKind::StrLit(v) => match fmt {
            Some(af) => (f1.0 + seq![GTok::Text(tailwind_sorted(v@))], f1.1),
            None => (f1.0 + spec_literal_toks(src, v@, e.span), f1.1),
        },
        _ => (
            f1.0 + spec_string_emit(e.text@, e.span.start.column as int, true),
            FState {
                next: spec_skip_below(t, f1.1.next, spec_line0u(e.span.end.line) as int),
                line_offset: f1.1.line_offset,
            },
        ),
    }
}

/// A flush without trailing-blank skipping, as the walk performs before a
/// node or expression.
pub open spec fn spec_flush_at(t: Seq<GEntry>, st: FState, line_index: usize) -> (
    Seq<GTok>,
    FState,
) {
    crate::formatter::spec_flush(t, st, line_index, false)
}

/// What printing a braced block emits: the single inner expression bare or
/// in tight braces, or the whole block as an expression.
pub open spec fn spec_nvbe_toks(
    src: Option<Seq<char>>,
    t: Seq<GEntry>,
    st: FState,
    e: Expr,
    unwrap_expr: bool,
    unwrap_lit: bool,
) -> (Seq<GTok>, FState) {
    match e.kind {
        ExprKind::Braced(Some(inner)) => {
            let is_lit = (*inner).kind matches ExprKind::Lit || (*inner).kind matches ExprKind::StrLit(_);
            if unwrap_expr || (unwrap_lit && is_lit) {
                spec_expr_toks(src, t, st, *inner, None)
            } else {
                let r = spec_expr_toks(src, t, st, *inner, None);
                (seq![GTok::Text("{"@)] + r.0 + seq![GTok::Text("}"@)], r.1)
            }
        },
        _ => spec_expr_toks(src, t, st, e, None),
    }
}

/// What printing an attribute value or child expression emits.
pub open spec fn spec_nve_toks(
    src: Option<Seq<char>>,
    t: Seq<GEntry>,
    st: FState,
    e: Expr,
    unwrap_expr: bool,
    unwrap_lit: bool,
    fmt: Option<ExpressionFormatter>,
) -> (Seq<GTok>, FState) {
    if e.kind matches ExprKind::Braced(_) {
        spec_nvbe_toks(src, t, st, e, unwrap_expr, unwrap_lit)
    } else {
        spec_expr_toks(src, t, st, e, fmt)
    }
}

impl Formatter {
    /// Print a possibly multi-line text, re-indenting lines after the first
    /// relative to the column the text started at.
    pub fn string(&mut self, string: &str, start_column: usize) -> (u: ())
        requires
            old(self).wf(),
        ensures
            final(self).wf(),
            emits(*old(self), *final(self)),
            crate::printer::seg_delta(final(self).printer@) == crate::printer::seg_delta(
                old(self).printer@,
            ),
            crate::printer::seg_min(final(self).printer@) == crate::printer::seg_min(
                old(self).printer@,
            ),
            final(self).whitespace_and_comments == old(self).whitespace_and_comments,
            final(self).line_offset == old(self).line_offset,
            final(self).printer@ == old(self).printer@ + spec_string_emit(
                string@,
                start_column as int,
                true,
            ),
    {
        let ghost base = self.printer@;
        proof {
            crate::printer::lemma_seg_min_le_delta(base);
        }
        let v: Vec<char> = str_chars(string);
        let n: usize = v.len();
        let mut pos: usize = 0;
        let mut first: bool = true;
        let mut more: bool = n > 0;
        proof {
            assert(v@.skip(0) =~= v@);
        }
        while more
            invariant
                self.wf(),
                self.settings == old(self).settings,
                self.source == old(self).source,
                self.whitespace_and_comments == old(self).whitespace_and_comments,
                self.line_offset == old(self).line_offset,
                self.printer.cfg() == old(self).printer.cfg(),
                v@ == string@,
                n == v@.len(),
                pos <= n,
                more ==> pos < n,
                base == old(self).printer@,
                crate::printer::seg_delta(self.printer@) == crate::printer::seg_delta(base),
                crate::printer::seg_min(self.printer@) == crate::printer::seg_min(base),
                crate::printer::seg_min(base) <= crate::printer::seg_delta(base),
                self.printer@ + spec_string_emit(v@.skip(pos as int), start_column as int, first)
                    == base + spec_string_emit(string@, start_column as int, true),
                !more ==> spec_string_emit(v@.skip(pos as int), start_column as int, first)
                    == Seq::<GTok>::empty(),
            decreases n - pos, (if more { 1int } else { 0int }),
        {
            let ghost rest = v@.skip(pos as int);
            let mut j: usize = pos;
            while j < n && v[j] != '\n'
                invariant
                    pos <= j <= n,
                    n == v@.len(),
                    crate::span::spec_next_newline(v@, pos as int)
                        == crate::span::spec_next_newline(v@, j as int),
                decreases n - j,
            {
                j = j + 1;
            }
            proof {
                assert(j == crate::span::spec_next_newline(v@, pos as int));
                crate::span::lemma_next_newline_skip(v@, pos as int, 0);
                assert(crate::span::spec_next_newline(rest, 0) == j - pos);
            }
            let lend: usize = if j < n && j > pos && v[j - 1] == '\r' {
                j - 1
            } else {
                j
            };
            let line: &str = string.substring_char(pos, lend);
            proof {
                assert(line@ =~= rest.subrange(0, lend - pos));
            }
            let ghost before_word = self.printer@;
            let ghost w_used: Seq<char> = if first {
                line@
            } else {
                line@.skip(spec_trim_max(line@, 0, start_column as int))
            };
            if first {
                self.printer.word(line);
            } else {
                let trimmed: &str = trim_start_with_max(line, start_column);
                self.printer.word(trimmed);
            }
            proof {
                assert(self.printer@ =~= before_word.push(GTok::Text(w_used)));
            }
            if j < n && j + 1 < n {
                self.printer.hardbreak();
                proof {
                    assert(v@.skip(j as int + 1) =~= rest.skip(j as int + 1 - pos));
                    assert(spec_string_emit(rest, start_column as int, first) == seq![
                        GTok::Text(w_used),
                        GTok::Brk { blank: HARD_BLANK as int, dedent: 0, never: false },
                    ] + spec_string_emit(rest.skip(j as int + 1 - pos), start_column as int, false));
                    assert(self.printer@ + spec_string_emit(
                        v@.skip(j as int + 1),
                        start_column as int,
                        false,
                    ) =~= before_word + spec_string_emit(rest, start_column as int, first));
                }
                pos = j + 1;
                first = false;
            } else {
                proof {
                    assert(v@.skip(n as int) =~= Seq::<char>::empty());
                    assert(spec_string_emit(rest, start_column as int, first) =~= seq![
                        GTok::Text(w_used),
                    ]);
                    assert(self.printer@ + spec_string_emit(
                        v@.skip(n as int),
                        start_column as int,
                        false,
                    ) =~= before_word + spec_string_emit(rest, start_column as int, first));
                }
                more = false;
                pos = n;
            }
        }
        proof {
            assert(self.printer@ =~= base + spec_string_emit(
                string@,
                start_column as int,
                true,
            ));
            lemma_prefix_concat(base, spec_string_emit(string@, start_column as int, true));
        }
    }
}

impl Formatter {
    /// Print a span of the original source verbatim, re-indented relative to
    /// the column it started at.
    pub fn source_code(&mut self, span: Span) -> (u: ())
        requires
            old(self).wf(),
            old(self).source is Some,
        ensures
            final(self).wf(),
            emits(*old(self), *final(self)),
            crate::printer::seg_delta(final(self).printer@) == crate::printer::seg_delta(
                old(self).printer@,
            ),
            crate::printer::seg_min(final(self).printer@) == crate::printer::seg_min(
                old(self).printer@,
            ),
            final(self).whitespace_and_comments == old(self).whitespace_and_comments,
            final(self).line_offset == old(self).line_offset,
            final(self).printer@ == old(self).printer@ + spec_string_emit(
                crate::span::spec_text_between(
                    old(self).source.unwrap().text@,
                    span.start,
                    span.end,
                ),
                span.start.column as int,
                true,
            ),
    {
        let mut slice: String = String::new();
        match &self.source {
            Some(st) => {
                slice = crate::span::text_between(st.text.as_str(), &st.chars, span.start, span.end);
            },
            None => {
                proof {
                    assert(false);
                }
            },
        }
        self.string(slice.as_str(), span.start.column);
    }

    /// Print a string literal: from the source verbatim when a source buffer
    /// is at hand, else re-quoted from its value.
    pub fn literal_str(&mut self, value: &str, span: Span) -> (u: ())
        requires
            old(self).wf(),
        ensures
            final(self).wf(),
            emits(*old(self), *final(self)),
            crate::printer::seg_delta(final(self).printer@) == crate::printer::seg_delta(
                old(self).printer@,
            ),
            crate::printer::seg_min(final(self).printer@) == crate::printer::seg_min(
                old(self).printer@,
            ),
            final(self).whitespace_and_comments == old(self).whitespace_and_comments,
            final(self).line_offset == old(self).line_offset,
            final(self).printer@ == old(self).printer@ + (if old(self).source is Some {
                spec_string_emit(
                    crate::span::spec_text_between(
                        old(self).source.unwrap().text@,
                        span.start,
                        span.end,
                    ),
                    span.start.column as int,
                    true,
                )
            } else {
                seq![GTok::Text("\""@)] + spec_string_emit(value@, span.start.column as int, true)
                    + seq![GTok::Text("\""@)]
            }),
    {
        proof {
            crate::printer::lemma_seg_min_le_delta(old(self).printer@);
        }
        let has_source: bool = self.source.is_some();
        if has_source {
            self.source_code(span);
        } else {
            let ghost base = self.printer@;
            self.printer.word("\"");
            self.string(value, span.start.column);
            self.printer.word("\"");
            proof {
                assert(self.printer@ =~= base + (seq![GTok::Text("\""@)] + spec_string_emit(
                    value@,
                    span.start.column as int,
                    true,
                ) + seq![GTok::Text("\""@)]));
                lemma_prefix_concat(
                    base,
                    seq![GTok::Text("\""@)] + spec_string_emit(
                        value@,
                        span.start.column as int,
                        true,
                    ) + seq![GTok::Text("\""@)],
                );
            }
        }
    }

    /// Print an expression: a string literal through its configured alternate
    /// formatter or verbatim with its quotes; anything else as its source
    /// text, re-indented.  Gap-table entries inside the expression's span are
    /// dropped, since its text already carries them verbatim.
    pub fn expr(&mut self, e: &Expr, fmt: Option<ExpressionFormatter>) -> (u: ())
        requires
            old(self).wf(),
        ensures
            final(self).wf(),
            crate::formatter::preserves(*old(self), *final(self)),
            crate::printer::extends(old(self).printer@, final(self).printer@),
            crate::printer::seg_delta(final(self).printer@) == crate::printer::seg_delta(
                old(self).printer@,
            ),
            crate::printer::seg_min(final(self).printer@) == crate::printer::seg_min(
                old(self).printer@,
            ),
            walk_post(
                *old(self),
                *final(self),
                spec_expr_toks(
                    source_view(*old(self)),
                    old(self).whitespace_and_comments@,
                    fstate_of(*old(self)),
                    *e,
                    fmt,
                ),
            ),
    {
        let ghost pre = *self;
        let ghost t0 = pre.whitespace_and_comments@;
        let ghost st0 = fstate_of(pre);
        let ghost out = spec_expr_toks(source_view(pre), t0, st0, *e, fmt);
        let line0: usize = if e.span.start.line >= 1 {
            e.span.start.line - 1
        } else {
            0
        };
        proof {
            assert(line0 == spec_line0u(e.span.start.line));
        }
        self.flush_comments(line0, false);
        let ghost f1 = spec_flush_at(t0, st0, spec_line0u(e.span.start.line));
        proof {
            assert(self.printer@ == pre.printer@ + f1.0);
        }
        let is_strlit: bool = matches!(&e.kind, ExprKind::StrLit(_));
        if is_strlit {
            match fmt {
                Some(f) => {
                    let mut v: String = String::new();
                    match &e.kind {
                        ExprKind::StrLit(value) => {
                            v = String::from_str(value.as_str());
                        },
                        _ => {},
                    }
                    f.format(self, v);
                    proof {
                        assert(self.printer@ =~= pre.printer@ + out.0);
                    }
                },
                None => {
                    match &e.kind {
                        ExprKind::StrLit(value) => {
                            let value2: String = String::from_str(value.as_str());
                            self.literal_str(value2.as_str(), e.span);
                            proof {
                                assert(self.printer@ =~= pre.printer@ + out.0);
                            }
                        },
                        _ => {},
                    }
                },
            }
        } else {
            let end0: usize = if e.span.end.line >= 1 {
                e.span.end.line - 1
            } else {
                0
            };
            proof {
                assert(end0 == spec_line0u(e.span.end.line));
            }
            self.whitespace_and_comments.skip_below(end0);
            let text: String = String::from_str(e.text.as_str());
            self.string(text.as_str(), e.span.start.column);
            proof {
                assert(self.printer@ =~= pre.printer@ + out.0);
            }
        }
        proof {
            assert(walk_post(pre, *self, out));
        }
    }

    /// Print a braced block expression.  A block holding exactly one
    /// expression may lose its braces — always when
    /// `unwrap_single_expr_blocks`, or for a bare literal when
    /// `unwrap_single_lit_blocks`; otherwise the braces are kept with no
    /// space inside them.
    pub fn node_value_block_expr(
        &mut self,
        e: &Expr,
        unwrap_single_expr_blocks: bool,
        unwrap_single_lit_blocks: bool,
    ) -> (u: ())
        requires
            old(self).wf(),
        ensures
            final(self).wf(),
            crate::formatter::preserves(*old(self), *final(self)),
            crate::printer::extends(old(self).printer@, final(self).printer@),
            crate::printer::seg_delta(final(self).printer@) == crate::printer::seg_delta(
                old(self).printer@,
            ),
            crate::printer::seg_min(final(self).printer@) == crate::printer::seg_min(
                old(self).printer@,
            ),
            walk_post(
                *old(self),
                *final(self),
                spec_nvbe_toks(
                    source_view(*old(self)),
                    old(self).whitespace_and_comments@,
                    fstate_of(*old(self)),
                    *e,
                    unwrap_single_expr_blocks,
                    unwrap_single_lit_blocks,
                ),
            ),
    {
        proof {
            crate::printer::lemma_seg_min_le_delta(old(self).printer@);
        }
        let ghost pre = *self;
        let ghost out = spec_nvbe_toks(
            source_view(pre),
            pre.whitespace_and_comments@,
            fstate_of(pre),
            *e,
            unwrap_single_expr_blocks,
            unwrap_single_lit_blocks,
        );
        let mut single: Option<&Expr> = None;
        match &e.kind {
            ExprKind::Braced(Some(inner)) => {
                single = Some(&*inner);
            },
            _ => {},
        }
        match single {
            Some(inner) => {
                let is_lit: bool = matches!(
                    &inner.kind,
                    ExprKind::Lit | ExprKind::StrLit(_),
                );
                if unwrap_single_expr_blocks || (unwrap_single_lit_blocks && is_lit) {
                    self.expr(inner, None);
                } else {
                    self.printer.word("{");
                    let ghost mid = *self;
                    self.expr(inner, None);
                    let ghost r = spec_expr_toks(
                        source_view(mid),
                        mid.whitespace_and_comments@,
                        fstate_of(mid),
                        *inner,
                        None,
                    );
                    self.printer.word("}");
                    proof {
                        assert(self.printer@ =~= pre.printer@ + (seq![GTok::Text("{"@)] + r.0
                            + seq![GTok::Text("}"@)]));
                    }
                }
            },
            None => {
                self.expr(e, None);
            },
        }
        proof {
            assert(walk_post(pre, *self, out));
        }
    }

    /// Print an attribute value or child expression: a braced block through
    /// the block rules, anything else as an expression.
    pub fn node_value_expr(
        &mut self,
        value: &Expr,
        unwrap_single_expr_blocks: bool,
        unwrap_single_lit_blocks: bool,
        fmt: Option<ExpressionFormatter>,
    ) -> (u: ())
        requires
            old(self).wf(),
        ensures
            final(self).wf(),
            crate::formatter::preserves(*old(self), *final(self)),
            crate::printer::extends(old(self).printer@, final(self).printer@),
            crate::printer::seg_delta(final(self).printer@) == crate::printer::seg_delta(
                old(self).printer@,
            ),
            crate::printer::seg_min(final(self).printer@) == crate::printer::seg_min(
                old(self).printer@,
            ),
            walk_post(
                *old(self),
                *final(self),
                spec_nve_toks(
                    source_view(*old(self)),
                    old(self).whitespace_and_comments@,
                    fstate_of(*old(self)),
                    *value,
                    unwrap_single_expr_blocks,
                    unwrap_single_lit_blocks,
                    fmt,
                ),
            ),
    {
        let is_braced: bool = matches!(&value.kind, ExprKind::Braced(_));
        if is_braced {
            self.node_value_block_expr(value, unwrap_single_expr_blocks, unwrap_single_lit_blocks);
        } else {
            self.expr(value, fmt);
        }
    }
}

} // verus!
