//! Printing fragments: `<> ... </>`.

use vstd::prelude::*;

use crate::collect_comments::GEntry;
use crate::formatter::element::spec_children_toks;
use crate::formatter::node::{line0, spec_line0u};
use crate::formatter::{
    fstate_of, preserves, source_view, spec_flush, walk_post, FState, Formatter, GSettings,
};
use crate::markup::{node_size, Fragment, Node};
use crate::printer::GTok;

verus! {

/// What printing a fragment emits: its children between `<>` and `</>`,
/// with the flush before the closing tag.
pub open spec fn spec_fragment_toks(
    gs: GSettings,
    src: Option<Seq<char>>,
    t: Seq<GEntry>,
    st: FState,
    f: Fragment,
) -> (Seq<GTok>, FState)
    decreases node_size(Node::Fragment(f)), 0int,
{
    let ch = spec_children_toks(gs, src, t, st, f.children@, 0);
    let fl = spec_flush(t, ch.1, spec_line0u(f.close_span.end.line), true);
    (seq![GTok::Text("<>"@)] + ch.0 + fl.0 + seq![GTok::Text("</>"@)], fl.1)
}

impl Formatter {
    /// Print a fragment: its children between `<>` and `</>`, with the
    /// comments before the closing tag flushed.
    pub fn fragment(&mut self, fragment: &Fragment) -> (u: ())
        requires
            old(self).wf(),
        ensures
            final(self).wf(),
            preserves(*old(self), *final(self)),
            crate::printer::extends(old(self).printer@, final(self).printer@),
            crate::printer::seg_delta(final(self).printer@) == crate::printer::seg_delta(
                old(self).printer@,
            ),
            crate::printer::seg_min(final(self).printer@) == crate::printer::seg_min(
                old(self).printer@,
            ),
            final(self).printer@.len() > old(self).printer@.len(),
            walk_post(
                *old(self),
                *final(self),
                spec_fragment_toks(
                    crate::formatter::settings_view(old(self).settings),
                    source_view(*old(self)),
                    old(self).whitespace_and_comments@,
                    fstate_of(*old(self)),
                    *fragment,
                ),
            ),
        decreases node_size(Node::Fragment(*fragment)), 0int,
    {
        proof {
            crate::printer::lemma_seg_min_le_delta(old(self).printer@);
        }
        let ghost pre = *self;
        let ghost gs = crate::formatter::settings_view(pre.settings);
        let ghost src0 = source_view(pre);
        let ghost t0 = pre.whitespace_and_comments@;
        let ghost out = spec_fragment_toks(gs, src0, t0, fstate_of(pre), *fragment);
        self.printer.word("<>");
        self.children(&fragment.children, 0);
        let ghost ch = spec_children_toks(gs, src0, t0, fstate_of(pre), fragment.children@, 0);
        let l0: usize = line0(fragment.close_span.end.line);
        self.flush_comments(l0, true);
        self.printer.word("</>");
        proof {
            assert(self.printer@ =~= pre.printer@ + out.0);
            assert(walk_post(pre, *self, out));
        }
    }
}

} // verus!
