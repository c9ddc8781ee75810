//! Dispatching a markup node to its printer, flushing recovered comments
//! that precede it.

use vstd::prelude::*;

use crate::formatter::{preserves, Formatter};
use crate::markup::{node_size, Expr, Node, TagName};
use crate::printer::GTok;
use crate::formatter::expr::{
    spec_expr_toks, spec_flush_at, spec_literal_toks, spec_nvbe_toks, spec_string_emit,
};
use crate::formatter::{fstate_of, source_view, walk_post, FState, GSettings};
use crate::collect_comments::GEntry;
use crate::span::Span;

verus! {

/// The 0-indexed line of a 1-indexed line number.
pub open spec fn spec_line0(line: int) -> int {
    if line >= 1 {
        line - 1
    } else {
        0
    }
}

/// The 0-indexed line of a 1-indexed line number.
pub open spec fn spec_line0u(line: usize) -> usize {
    if line >= 1 {
        (line - 1) as usize
    } else {
        0
    }
}

/// The 0-indexed line of a 1-indexed line number.
pub fn line0(line: usize) -> (r: usize)
    ensures
        r == spec_line0(line as int),
        r == spec_line0u(line),
{
    if line >= 1 {
        line - 1
    } else {
        0
    }
}

/// The directives a comment node prints.
pub open spec fn spec_comment_toks(src: Option<Seq<char>>, value: Seq<char>, value_span: Span) -> Seq<GTok> {
    seq![GTok::Text("<!-- "@)] + spec_literal_toks(src, value, value_span) + seq![
        GTok::Text(" -->"@),
    ]
}

/// The directives a doctype node prints.
pub open spec fn spec_doctype_toks(value: Seq<char>, col: int) -> Seq<GTok> {
    seq![GTok::Text("<!DOCTYPE "@)] + spec_string_emit(value, col, true) + seq![GTok::Text(">"@)]
}

/// What printing an element or attribute name emits.
pub open spec fn spec_name_toks(
    src: Option<Seq<char>>,
    t: Seq<GEntry>,
    st: FState,
    name: TagName,
) -> (Seq<GTok>, FState) {
    match name {
        TagName::Ident(s) => (seq![GTok::Text(s@)], st),
        TagName::Block(e) => spec_nvbe_toks(src, t, st, e, false, false),
    }
}

/// What printing one node emits and how it moves the walk state: the flush
/// before the node, then the node itself.
pub open spec fn spec_node_toks(
    gs: GSettings,
    src: Option<Seq<char>>,
    t: Seq<GEntry>,
    st: FState,
    n: Node,
) -> (Seq<GTok>, FState)
    decreases node_size(n), 1int,
{
    let f1 = spec_flush_at(t, st, spec_line0u(n.spec_span().start.line));
    let r = match n {
        Node::Element(e) => crate::formatter::element::spec_element_toks(gs, src, t, f1.1, e),
        Node::Fragment(fr) => crate::formatter::fragment::spec_fragment_toks(gs, src, t, f1.1, fr),
        Node::Text { value, span } => (spec_literal_toks(src, value@, span), f1.1),
        Node::RawText { text, span } => (
            spec_string_emit(text@, span.start.column as int, true),
            f1.1,
        ),
        Node::Block(e) => spec_nvbe_toks(src, t, f1.1, e, false, false),
        Node::Comment { value, value_span, .. } => (spec_comment_toks(src, value@, value_span), f1.1),
        Node::Doctype { value, value_col, .. } => (spec_doctype_toks(value@, value_col as int), f1.1),
    };
    (f1.0 + r.0, r.1)
}

impl Formatter {
    /// Print one node, after flushing the comments and blank lines that
    /// stand before it.
    pub fn node(&mut self, node: &Node) -> (u: ())
        requires
            old(self).wf(),
        ensures
            final(self).wf(),
            preserves(*old(self), *final(self)),
            crate::printer::extends(old(self).printer@, final(self).printer@),
            crate::printer::seg_delta(final(self).printer@) == crate::printer::seg_delta(
                old(self).printer@,
            ),
            crate::printer::seg_min(final(self).printer@) == crate::printer::seg_min(
                old(self).printer@,
            ),
            walk_post(
                *old(self),
                *final(self),
                spec_node_toks(
                    crate::formatter::settings_view(old(self).settings),
                    source_view(*old(self)),
                    old(self).whitespace_and_comments@,
                    fstate_of(*old(self)),
                    *node,
                ),
            ),
        decreases node_size(*node), 1int,
    {
        let ghost pre = *self;
        let ghost out = spec_node_toks(
            crate::formatter::settings_view(pre.settings),
            source_view(pre),
            pre.whitespace_and_comments@,
            fstate_of(pre),
            *node,
        );
        let sp: Span = node.span();
        let l0: usize = line0(sp.start.line);
        self.flush_comments(l0, false);
        let ghost f1 = spec_flush_at(
            pre.whitespace_and_comments@,
            fstate_of(pre),
            spec_line0u(sp.start.line),
        );
        match node {
            Node::Element(e) => self.element(e),
            Node::Fragment(f) => self.fragment(f),
            Node::Text { value, span } => self.node_text(value.as_str(), *span),
            Node::RawText { text, span } => self.raw_text(text.as_str(), *span),
            Node::Block(e) => self.node_block(e),
            Node::Comment { value, value_span, .. } => self.comment(value.as_str(), *value_span),
            Node::Doctype { value, value_col, .. } => self.doctype(value.as_str(), *value_col),
        }
        proof {
            assert(self.printer@ =~= pre.printer@ + out.0);
            assert(walk_post(pre, *self, out));
        }
    }

    /// Print an `<!-- ... -->` comment node.
    pub fn comment(&mut self, value: &str, value_span: Span) -> (u: ())
        requires
            old(self).wf(),
        ensures
            final(self).wf(),
            preserves(*old(self), *final(self)),
            final(self).whitespace_and_comments == old(self).whitespace_and_comments,
            final(self).line_offset == old(self).line_offset,
            crate::printer::seg_delta(final(self).printer@) == crate::printer::seg_delta(
                old(self).printer@,
            ),
            crate::printer::seg_min(final(self).printer@) == crate::printer::seg_min(
                old(self).printer@,
            ),
            final(self).printer@ == old(self).printer@ + seq![GTok::Text("<!-- "@)] + (if old(
                self,
            ).source is Some {
                spec_string_emit(
                    crate::span::spec_text_between(
                        old(self).source.unwrap().text@,
                        value_span.start,
                        value_span.end,
                    ),
                    value_span.start.column as int,
                    true,
                )
            } else {
                seq![GTok::Text("\""@)] + spec_string_emit(
                    value@,
                    value_span.start.column as int,
                    true,
                ) + seq![GTok::Text("\""@)]
            }) + seq![GTok::Text(" -->"@)],
    {
        let ghost base = self.printer@;
        proof {
            crate::printer::lemma_seg_min_le_delta(base);
        }
        self.printer.word("<!-- ");
        self.literal_str(value, value_span);
        self.printer.word(" -->");
        proof {
            assert(final(self).printer@ =~= base + seq![GTok::Text("<!-- "@)] + (if old(
                self,
            ).source is Some {
                spec_string_emit(
                    crate::span::spec_text_between(
                        old(self).source.unwrap().text@,
                        value_span.start,
                        value_span.end,
                    ),
                    value_span.start.column as int,
                    true,
                )
            } else {
                seq![GTok::Text("\""@)] + spec_string_emit(
                    value@,
                    value_span.start.column as int,
                    true,
                ) + seq![GTok::Text("\""@)]
            }) + seq![GTok::Text(" -->"@)]);
        }
    }

    /// Print a `<!DOCTYPE ...>` node.
    pub fn doctype(&mut self, value: &str, value_col: usize) -> (u: ())
        requires
            old(self).wf(),
        ensures
            final(self).wf(),
            preserves(*old(self), *final(self)),
            final(self).whitespace_and_comments == old(self).whitespace_and_comments,
            final(self).line_offset == old(self).line_offset,
            crate::printer::seg_delta(final(self).printer@) == crate::printer::seg_delta(
                old(self).printer@,
            ),
            crate::printer::seg_min(final(self).printer@) == crate::printer::seg_min(
                old(self).printer@,
            ),
            final(self).printer@ == old(self).printer@ + seq![GTok::Text("<!DOCTYPE "@)]
                + spec_string_emit(value@, value_col as int, true) + seq![GTok::Text(">"@)],
    {
        let ghost base = self.printer@;
        proof {
            crate::printer::lemma_seg_min_le_delta(base);
        }
        self.printer.word("<!DOCTYPE ");
        self.string(value, value_col);
        self.printer.word(">");
        proof {
            assert(final(self).printer@ =~= base + seq![GTok::Text("<!DOCTYPE "@)]
                + spec_string_emit(value@, value_col as int, true) + seq![GTok::Text(">"@)]);
        }
    }

    /// Print a quoted text node.
    pub fn node_text(&mut self, value: &str, span: Span) -> (u: ())
        requires
            old(self).wf(),
        ensures
            final(self).wf(),
            preserves(*old(self), *final(self)),
            final(self).whitespace_and_comments == old(self).whitespace_and_comments,
            final(self).line_offset == old(self).line_offset,
            crate::printer::seg_delta(final(self).printer@) == crate::printer::seg_delta(
                old(self).printer@,
            ),
            crate::printer::seg_min(final(self).printer@) == crate::printer::seg_min(
                old(self).printer@,
            ),
            final(self).printer@ == old(self).printer@ + (if old(self).source is Some {
                spec_string_emit(
                    crate::span::spec_text_between(
                        old(self).source.unwrap().text@,
                        span.start,
                        span.end,
                    ),
                    span.start.column as int,
                    true,
                )
            } else {
                seq![GTok::Text("\""@)] + spec_string_emit(value@, span.start.column as int, true)
                    + seq![GTok::Text("\""@)]
            }),
    {
        self.literal_str(value, span);
    }

    /// Print an unquoted text node verbatim, re-indented relative to its
    /// starting column.
    pub fn raw_text(&mut self, text: &str, span: Span) -> (u: ())
        requires
            old(self).wf(),
        ensures
            final(self).wf(),
            preserves(*old(self), *final(self)),
            final(self).whitespace_and_comments == old(self).whitespace_and_comments,
            final(self).line_offset == old(self).line_offset,
            crate::printer::seg_delta(final(self).printer@) == crate::printer::seg_delta(
                old(self).printer@,
            ),
            crate::printer::seg_min(final(self).printer@) == crate::printer::seg_min(
                old(self).printer@,
            ),
            final(self).printer@ == old(self).printer@ + crate::formatter::expr::spec_string_emit(
                text@,
                span.start.column as int,
                true,
            ),
    {
        self.string(text, span.start.column);
    }

    /// Print an element or attribute name.
    pub fn node_name(&mut self, name: &TagName) -> (u: ())
        requires
            old(self).wf(),
        ensures
            final(self).wf(),
            preserves(*old(self), *final(self)),
            crate::printer::extends(old(self).printer@, final(self).printer@),
            crate::printer::seg_delta(final(self).printer@) == crate::printer::seg_delta(
                old(self).printer@,
            ),
            crate::printer::seg_min(final(self).printer@) == crate::printer::seg_min(
                old(self).printer@,
            ),
            walk_post(
                *old(self),
                *final(self),
                spec_name_toks(
                    source_view(*old(self)),
                    old(self).whitespace_and_comments@,
                    fstate_of(*old(self)),
                    *name,
                ),
            ),
    {
        proof {
            crate::printer::lemma_seg_min_le_delta(old(self).printer@);
        }
        let ghost pre = *self;
        match name {
            TagName::Block(e) => self.node_value_block_expr(e, false, false),
            TagName::Ident(s) => {
                self.printer.word(s.as_str());
                proof {
                    assert(self.printer@ =~= pre.printer@ + seq![GTok::Text(s@)]);
                }
            },
        }
    }

    /// Print a block node, `{ ... }`.
    pub fn node_block(&mut self, block: &Expr) -> (u: ())
        requires
            old(self).wf(),
        ensures
            final(self).wf(),
            preserves(*old(self), *final(self)),
            crate::printer::extends(old(self).printer@, final(self).printer@),
            crate::printer::seg_delta(final(self).printer@) == crate::printer::seg_delta(
                old(self).printer@,
            ),
            crate::printer::seg_min(final(self).printer@) == crate::printer::seg_min(
                old(self).printer@,
            ),
            walk_post(
                *old(self),
                *final(self),
                spec_nvbe_toks(
                    source_view(*old(self)),
                    old(self).whitespace_and_comments@,
                    fstate_of(*old(self)),
                    *block,
                    false,
                    false,
                ),
            ),
    {
        self.node_value_block_expr(block, false, false);
    }
}

} // verus!
