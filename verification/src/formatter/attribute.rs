//! Printing attributes: keyed attributes with their optional values, binding
//! lists, and block attributes, with the configured brace policy applied to
//! single-expression values.

use vstd::prelude::*;

use crate::collect_comments::GEntry;
use crate::formatter::expr::{spec_flush_at, spec_nvbe_toks, spec_nve_toks};
use crate::formatter::node::{line0, spec_line0u};
use crate::formatter::{
    fstate_of, preserves, source_view, spec_attr_lookup, walk_post, AttributeValueBraceStyle,
    ExpressionFormatter, FState, Formatter, GSettings,
};
use crate::printer::GTok;
use crate::markup::{is_spread_attribute, Attribute, AttrValue, Expr, ExprKind, KeyedAttribute};
use crate::span::Span;

verus! {

/// The directives of a binding pattern list's inner items: the patterns
/// joined by a comma and a breakable space.
pub open spec fn spec_binding_fold(pats: Seq<String>) -> Seq<GTok>
    decreases pats.len(),
{
    if pats.len() == 0 {
        Seq::<GTok>::empty()
    } else {
        seq![GTok::Text(pats.first()@)] + (if pats.len() > 1 {
            seq![GTok::Text(","@), GTok::Brk { blank: 1, dedent: 0, never: false }]
        } else {
            Seq::<GTok>::empty()
        }) + spec_binding_fold(pats.drop_first())
    }
}

/// The directives a binding pattern list prints.
pub open spec fn spec_binding_toks(pats: Seq<String>) -> Seq<GTok> {
    seq![GTok::Text("("@)] + spec_binding_fold(pats) + seq![GTok::Text(")"@)]
}

/// What printing an attribute value emits under the configured brace
/// policy.
pub open spec fn spec_attr_value_toks(
    gs: GSettings,
    src: Option<Seq<char>>,
    t: Seq<GEntry>,
    st: FState,
    e: crate::markup::Expr,
    fmt: Option<ExpressionFormatter>,
    next_spread: bool,
) -> (Seq<GTok>, FState) {
    let braced = e.kind matches crate::markup::ExprKind::Braced(_);
    let lit = e.kind matches crate::markup::ExprKind::Lit || e.kind
        matches crate::markup::ExprKind::StrLit(_);
    match gs.brace_style {
        AttributeValueBraceStyle::WhenRequired => if braced && next_spread {
            spec_nve_toks(src, t, st, e, false, true, fmt)
        } else {
            spec_nve_toks(src, t, st, e, true, true, fmt)
        },
        AttributeValueBraceStyle::Always => if braced {
            spec_nve_toks(src, t, st, e, false, false, fmt)
        } else {
            let r = spec_nve_toks(src, t, st, e, false, false, fmt);
            (seq![GTok::Text("{"@)] + r.0 + seq![GTok::Text("}"@)], r.1)
        },
        AttributeValueBraceStyle::AlwaysUnlessLit => if braced || lit {
            spec_nve_toks(src, t, st, e, false, true, fmt)
        } else {
            let r = spec_nve_toks(src, t, st, e, false, false, fmt);
            (seq![GTok::Text("{"@)] + r.0 + seq![GTok::Text("}"@)], r.1)
        },
        AttributeValueBraceStyle::Preserve => spec_nve_toks(src, t, st, e, false, false, fmt),
    }
}

/// What printing a keyed attribute emits: its name, then its binding list
/// or `=` and its value.
pub open spec fn spec_keyed_toks(
    gs: GSettings,
    src: Option<Seq<char>>,
    t: Seq<GEntry>,
    st: FState,
    k: KeyedAttribute,
    next_spread: bool,
) -> (Seq<GTok>, FState) {
    let name = seq![GTok::Text(k.name@)];
    match k.value {
        AttrValue::Empty => (name, st),
        AttrValue::Binding(pats) => (name + spec_binding_toks(pats@), st),
        AttrValue::Value(e) => {
            let fmt = spec_attr_lookup(gs.attr_values, k.name@);
            let v = spec_attr_value_toks(gs, src, t, st, e, fmt, next_spread);
            (name + seq![GTok::Text("="@)] + v.0, v.1)
        },
    }
}

/// What printing one attribute emits: the flush before it, then the keyed
/// attribute or block.
pub open spec fn spec_attribute_toks(
    gs: GSettings,
    src: Option<Seq<char>>,
    t: Seq<GEntry>,
    st: FState,
    attr: Attribute,
    next_spread: bool,
) -> (Seq<GTok>, FState) {
    let f1 = spec_flush_at(t, st, spec_line0u(attr.spec_span().start.line));
    let r = match attr {
        Attribute::Keyed(k) => spec_keyed_toks(gs, src, t, f1.1, k, next_spread),
        Attribute::Block { expr, .. } => spec_nvbe_toks(src, t, f1.1, expr, false, false),
    };
    (f1.0 + r.0, r.1)
}

impl Formatter {
    /// Print one attribute, after flushing the comments before it.
    pub fn attribute(&mut self, attribute: &Attribute, next_attribute: Option<&Attribute>) -> (u:
        ())
        requires
            old(self).wf(),
        ensures
            final(self).wf(),
            preserves(*old(self), *final(self)),
            crate::printer::extends(old(self).printer@, final(self).printer@),
            crate::printer::seg_delta(final(self).printer@) == crate::printer::seg_delta(
                old(self).printer@,
            ),
            crate::printer::seg_min(final(self).printer@) == crate::printer::seg_min(
                old(self).printer@,
            ),
            walk_post(
                *old(self),
                *final(self),
                spec_attribute_toks(
                    crate::formatter::settings_view(old(self).settings),
                    source_view(*old(self)),
                    old(self).whitespace_and_comments@,
                    fstate_of(*old(self)),
                    *attribute,
                    match next_attribute {
                        Some(a) => a.spec_is_spread(),
                        None => false,
                    },
                ),
            ),
    {
        let ghost pre = *self;
        let ghost ns = match next_attribute {
            Some(a) => a.spec_is_spread(),
            None => false,
        };
        let ghost out = spec_attribute_toks(
            crate::formatter::settings_view(pre.settings),
            source_view(pre),
            pre.whitespace_and_comments@,
            fstate_of(pre),
            *attribute,
            ns,
        );
        let sp: Span = attribute.span();
        let l0: usize = line0(sp.start.line);
        self.flush_comments(l0, false);
        match attribute {
            Attribute::Keyed(k) => self.keyed_attribute(k, next_attribute),
            Attribute::Block { expr, .. } => self.node_block(expr),
        }
        proof {
            assert(self.printer@ =~= pre.printer@ + out.0);
            assert(walk_post(pre, *self, out));
        }
    }

    /// Print a keyed attribute: its name, then its binding list or value.
    fn keyed_attribute(
        &mut self,
        attribute: &KeyedAttribute,
        next_attribute: Option<&Attribute>,
    ) -> (u: ())
        requires
            old(self).wf(),
        ensures
            final(self).wf(),
            preserves(*old(self), *final(self)),
            crate::printer::extends(old(self).printer@, final(self).printer@),
            crate::printer::seg_delta(final(self).printer@) == crate::printer::seg_delta(
                old(self).printer@,
            ),
            crate::printer::seg_min(final(self).printer@) == crate::printer::seg_min(
                old(self).printer@,
            ),
            final(self).printer@.len() > old(self).printer@.len(),
            walk_post(
                *old(self),
                *final(self),
                spec_keyed_toks(
                    crate::formatter::settings_view(old(self).settings),
                    source_view(*old(self)),
                    old(self).whitespace_and_comments@,
                    fstate_of(*old(self)),
                    *attribute,
                    match next_attribute {
                        Some(a) => a.spec_is_spread(),
                        None => false,
                    },
                ),
            ),
    {
        proof {
            crate::printer::lemma_seg_min_le_delta(old(self).printer@);
        }
        let ghost pre = *self;
        let ghost ns = match next_attribute {
            Some(a) => a.spec_is_spread(),
            None => false,
        };
        let ghost out = spec_keyed_toks(
            crate::formatter::settings_view(pre.settings),
            source_view(pre),
            pre.whitespace_and_comments@,
            fstate_of(pre),
            *attribute,
            ns,
        );
        self.printer.word(attribute.name.as_str());
        match &attribute.value {
            AttrValue::Empty => {
                proof {
                    assert(self.printer@ =~= pre.printer@ + out.0);
                }
            },
            AttrValue::Binding(pats) => {
                self.attribute_binding(pats);
                proof {
                    assert(self.printer@ =~= pre.printer@ + out.0);
                }
            },
            AttrValue::Value(expr) => {
                let fmt: Option<ExpressionFormatter> = self.settings.attr_value_formatter(
                    attribute.name.as_str(),
                );
                self.printer.word("=");
                let ghost mid = *self;
                self.attribute_value(expr, fmt, next_attribute);
                proof {
                    let v = spec_attr_value_toks(
                        crate::formatter::settings_view(pre.settings),
                        source_view(pre),
                        pre.whitespace_and_comments@,
                        fstate_of(pre),
                        *expr,
                        fmt,
                        ns,
                    );
                    assert(self.printer@ =~= pre.printer@ + out.0);
                }
            },
        }
        proof {
            assert(walk_post(pre, *self, out));
        }
    }

    /// Print a binding pattern list, `(a, b, c)`.
    fn attribute_binding(&mut self, pats: &Vec<String>) -> (u: ())
        requires
            old(self).wf(),
        ensures
            final(self).wf(),
            preserves(*old(self), *final(self)),
            crate::printer::extends(old(self).printer@, final(self).printer@),
            crate::printer::seg_delta(final(self).printer@) == crate::printer::seg_delta(
                old(self).printer@,
            ),
            crate::printer::seg_min(final(self).printer@) == crate::printer::seg_min(
                old(self).printer@,
            ),
            final(self).printer@.len() > old(self).printer@.len(),
            final(self).printer@ == old(self).printer@ + spec_binding_toks(pats@),
            final(self).whitespace_and_comments == old(self).whitespace_and_comments,
            final(self).line_offset == old(self).line_offset,
    {
        proof {
            crate::printer::lemma_seg_min_le_delta(old(self).printer@);
        }
        let ghost pre = *self;
        self.printer.word("(");
        let ghost base2 = self.printer@;
        proof {
            assert(pats@.skip(0) =~= pats@);
        }
        let n: usize = pats.len();
        let mut i: usize = 0;
        while i < n
            invariant
                self.wf(),
                i <= n,
                n == pats@.len(),
                self.settings == old(self).settings,
                self.source == old(self).source,
                self.whitespace_and_comments == old(self).whitespace_and_comments,
                self.line_offset == old(self).line_offset,
                self.printer.cfg() == old(self).printer.cfg(),
                crate::printer::extends(old(self).printer@, self.printer@),
                self.printer@.len() > old(self).printer@.len(),
                crate::printer::seg_delta(self.printer@) == crate::printer::seg_delta(
                    old(self).printer@,
                ),
                crate::printer::seg_min(self.printer@) == crate::printer::seg_min(
                    old(self).printer@,
                ),
                crate::printer::seg_min(old(self).printer@) <= crate::printer::seg_delta(
                    old(self).printer@,
                ),
                base2 == old(self).printer@ + seq![GTok::Text("("@)],
                self.printer@ + spec_binding_fold(pats@.skip(i as int)) == base2
                    + spec_binding_fold(pats@),
            decreases n - i,
        {
            let ghost rest = pats@.skip(i as int);
            proof {
                assert(rest.first() == pats@[i as int]);
                assert(rest.drop_first() =~= pats@.skip(i as int + 1));
            }
            self.printer.word(pats[i].as_str());
            if i + 1 < n {
                self.printer.word(",");
                self.printer.space();
            }
            proof {
                assert(self.printer@ + spec_binding_fold(pats@.skip(i as int + 1)) =~= base2
                    + spec_binding_fold(pats@));
            }
            i = i + 1;
        }
        proof {
            assert(pats@.skip(n as int) =~= Seq::<String>::empty());
        }
        self.printer.word(")");
        proof {
            assert(self.printer@ =~= pre.printer@ + spec_binding_toks(pats@));
        }
    }

    /// Print an attribute value under the configured brace policy.  Braces
    /// around a block value directly before a spread attribute are always
    /// kept: without them the value and the spread would parse as one struct
    /// literal.
    fn attribute_value(
        &mut self,
        value: &Expr,
        fmt: Option<ExpressionFormatter>,
        next_attribute: Option<&Attribute>,
    ) -> (u: ())
        requires
            old(self).wf(),
        ensures
            final(self).wf(),
            preserves(*old(self), *final(self)),
            crate::printer::extends(old(self).printer@, final(self).printer@),
            crate::printer::seg_delta(final(self).printer@) == crate::printer::seg_delta(
                old(self).printer@,
            ),
            crate::printer::seg_min(final(self).printer@) == crate::printer::seg_min(
                old(self).printer@,
            ),
            walk_post(
                *old(self),
                *final(self),
                spec_attr_value_toks(
                    crate::formatter::settings_view(old(self).settings),
                    source_view(*old(self)),
                    old(self).whitespace_and_comments@,
                    fstate_of(*old(self)),
                    *value,
                    fmt,
                    match next_attribute {
                        Some(a) => a.spec_is_spread(),
                        None => false,
                    },
                ),
            ),
    {
        proof {
            crate::printer::lemma_seg_min_le_delta(old(self).printer@);
        }
        let ghost pre = *self;
        let ghost ns = match next_attribute {
            Some(a) => a.spec_is_spread(),
            None => false,
        };
        let ghost out = spec_attr_value_toks(
            crate::formatter::settings_view(pre.settings),
            source_view(pre),
            pre.whitespace_and_comments@,
            fstate_of(pre),
            *value,
            fmt,
            ns,
        );
        let style: AttributeValueBraceStyle = self.settings.attr_value_brace_style;
        let is_braced: bool = matches!(&value.kind, ExprKind::Braced(_));
        let is_lit: bool = matches!(&value.kind, ExprKind::Lit | ExprKind::StrLit(_));
        let next_is_spread: bool = match next_attribute {
            Some(a) => is_spread_attribute(a),
            None => false,
        };
        match style {
            AttributeValueBraceStyle::WhenRequired => {
                if is_braced && next_is_spread {
                    self.node_value_expr(value, false, true, fmt);
                } else {
                    self.node_value_expr(value, true, true, fmt);
                }
            },
            AttributeValueBraceStyle::Always => {
                if is_braced {
                    self.node_value_expr(value, false, false, fmt);
                } else {
                    self.printer.word("{");
                    let ghost mid = *self;
                    self.node_value_expr(value, false, false, fmt);
                    self.printer.word("}");
                    proof {
                        let r = spec_nve_toks(
                            source_view(mid),
                            mid.whitespace_and_comments@,
                            fstate_of(mid),
                            *value,
                            false,
                            false,
                            fmt,
                        );
                        assert(self.printer@ =~= pre.printer@ + (seq![GTok::Text("{"@)] + r.0
                            + seq![GTok::Text("}"@)]));
                    }
                }
            },
            AttributeValueBraceStyle::AlwaysUnlessLit => {
                if is_braced || is_lit {
                    self.node_value_expr(value, false, true, fmt);
                } else {
                    self.printer.word("{");
                    let ghost mid = *self;
                    self.node_value_expr(value, false, false, fmt);
                    self.printer.word("}");
                    proof {
                        let r = spec_nve_toks(
                            source_view(mid),
                            mid.whitespace_and_comments@,
                            fstate_of(mid),
                            *value,
                            false,
                            false,
                            fmt,
                        );
                        assert(self.printer@ =~= pre.printer@ + (seq![GTok::Text("{"@)] + r.0
                            + seq![GTok::Text("}"@)]));
                    }
                }
            },
            AttributeValueBraceStyle::Preserve => {
                self.node_value_expr(value, false, false, fmt);
            },
        }
        proof {
            assert(walk_post(pre, *self, out));
        }
    }
}

} // verus!
