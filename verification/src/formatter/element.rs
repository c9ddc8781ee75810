//! Printing elements: the opening tag with its attributes, the children in
//! a soft or hard box, and the closing form the policy asks for.

use vstd::prelude::*;

use crate::collect_comments::GEntry;
use crate::formatter::attribute::spec_attribute_toks;
use crate::formatter::node::{line0, spec_line0u, spec_name_toks, spec_node_toks};
use crate::formatter::{
    fstate_of, preserves, source_view, spec_flush, str_eq, walk_post, ClosingTagStyle, FState,
    Formatter, GSettings,
};
use crate::markup::{lemma_member_size, node_size, nodes_size, Attribute, Element, Node, TagName};
use crate::printer::{GTok, HARD_BLANK};

verus! {

/// Whether `name` is one of the void elements: element types that can never
/// have children and always print self-closing.
pub open spec fn spec_is_void(name: Seq<char>) -> bool {
    ||| name == "area"@
    ||| name == "base"@
    ||| name == "br"@
    ||| name == "col"@
    ||| name == "embed"@
    ||| name == "hr"@
    ||| name == "img"@
    ||| name == "input"@
    ||| name == "link"@
    ||| name == "meta"@
    ||| name == "param"@
    ||| name == "source"@
    ||| name == "track"@
    ||| name == "wbr"@
}

/// Whether `name` names a void element.
pub fn is_void_element(name: &str) -> (r: bool)
    ensures
        r == spec_is_void(name@),
{
    str_eq(name, "area") || str_eq(name, "base") || str_eq(name, "br") || str_eq(name, "col")
        || str_eq(name, "embed") || str_eq(name, "hr") || str_eq(name, "img") || str_eq(
        name,
        "input",
    ) || str_eq(name, "link") || str_eq(name, "meta") || str_eq(name, "param") || str_eq(
        name,
        "source",
    ) || str_eq(name, "track") || str_eq(name, "wbr")
}

/// Whether an element prints self-closing: an element with children never
/// does; a void element always does; otherwise the closing-tag policy
/// decides — `Preserve` keeps the form the source used, `SelfClosing` and
/// `NonSelfClosing` force their form.
pub open spec fn spec_is_self_closing(e: Element, style: ClosingTagStyle) -> bool {
    let void = match e.name {
        TagName::Ident(s) => spec_is_void(s@),
        TagName::Block(_) => false,
    };
    if e.children@.len() > 0 {
        false
    } else if void {
        true
    } else {
        match style {
            ClosingTagStyle::Preserve => e.self_closed,
            ClosingTagStyle::SelfClosing => true,
            ClosingTagStyle::NonSelfClosing => false,
        }
    }
}

/// Whether an element prints self-closing.
pub fn is_self_closing(element: &Element, closing_tag_style: ClosingTagStyle) -> (r: bool)
    ensures
        r == spec_is_self_closing(*element, closing_tag_style),
{
    if element.children.len() > 0 {
        return false;
    }
    let is_void: bool = match &element.name {
        TagName::Ident(s) => is_void_element(s.as_str()),
        TagName::Block(_) => false,
    };
    if is_void {
        return true;
    }
    match closing_tag_style {
        ClosingTagStyle::Preserve => element.self_closed,
        ClosingTagStyle::SelfClosing => true,
        ClosingTagStyle::NonSelfClosing => false,
    }
}

/// The directives of an attribute run: the attributes in order, a breakable
/// space between neighbours, each told whether a spread attribute follows.
pub open spec fn spec_attrs_fold(
    gs: GSettings,
    src: Option<Seq<char>>,
    t: Seq<GEntry>,
    st: FState,
    attrs: Seq<Attribute>,
) -> (Seq<GTok>, FState)
    decreases attrs.len(),
{
    if attrs.len() == 0 {
        (Seq::<GTok>::empty(), st)
    } else {
        let next_spread = if attrs.len() > 1 {
            attrs[1].spec_is_spread()
        } else {
            false
        };
        let a = spec_attribute_toks(gs, src, t, st, attrs.first(), next_spread);
        let sep = if attrs.len() > 1 {
            seq![GTok::Brk { blank: 1, dedent: 0, never: false }]
        } else {
            Seq::<GTok>::empty()
        };
        let rest = spec_attrs_fold(gs, src, t, a.1, attrs.drop_first());
        (a.0 + sep + rest.0, rest.1)
    }
}

/// What printing the attribute list emits: nothing (or a lone non-breaking
/// space), one inline attribute in a box, or a consistent indented box with
/// one attribute per potential line and a dedented trailing break.
pub open spec fn spec_attributes_toks(
    gs: GSettings,
    src: Option<Seq<char>>,
    t: Seq<GEntry>,
    st: FState,
    attrs: Seq<Attribute>,
    trailing_space: bool,
) -> (Seq<GTok>, FState) {
    if attrs.len() == 0 {
        (
            if trailing_space {
                seq![GTok::Text(" "@)]
            } else {
                Seq::<GTok>::empty()
            },
            st,
        )
    } else if attrs.len() == 1 {
        let a = spec_attribute_toks(gs, src, t, st, attrs[0], false);
        (
            seq![GTok::Begin { indent: 0, cons: true }, GTok::Text(" "@)] + a.0 + (if trailing_space {
                seq![GTok::Text(" "@)]
            } else {
                Seq::<GTok>::empty()
            }) + seq![GTok::End],
            a.1,
        )
    } else {
        let f = spec_attrs_fold(gs, src, t, st, attrs);
        let tail = if trailing_space {
            seq![GTok::Brk { blank: 1, dedent: gs.tab_spaces, never: false }, GTok::End]
        } else {
            seq![GTok::Brk { blank: 0, dedent: gs.tab_spaces, never: false }, GTok::End]
        };
        (
            seq![
                GTok::Begin { indent: gs.tab_spaces, cons: true },
                GTok::Brk { blank: 1, dedent: 0, never: false },
            ] + f.0 + tail,
            f.1,
        )
    }
}

/// The break between two adjacent children: a zero-width break when they
/// touched in the source and the next is raw text, else a breakable space.
pub open spec fn spec_child_sep(curr: Node, next: Node) -> Seq<GTok> {
    let consecutive = curr.spec_span().end.line == next.spec_span().start.line
        && next.spec_span().start.column == curr.spec_span().end.column;
    let next_raw = next matches Node::RawText { .. };
    if !next_raw && !consecutive {
        seq![GTok::Brk { blank: 1, dedent: 0, never: false }]
    } else {
        seq![GTok::Brk { blank: 0, dedent: 0, never: false }]
    }
}

/// The directives of a child run: the children in order with their
/// separators.
pub open spec fn spec_children_fold(
    gs: GSettings,
    src: Option<Seq<char>>,
    t: Seq<GEntry>,
    st: FState,
    children: Seq<Node>,
) -> (Seq<GTok>, FState)
    decreases nodes_size(children), 2int,
{
    if children.len() == 0 {
        (Seq::<GTok>::empty(), st)
    } else {
        let nd = spec_node_toks(gs, src, t, st, children.first());
        let sep = if children.len() > 1 {
            spec_child_sep(children[0], children[1])
        } else {
            Seq::<GTok>::empty()
        };
        let rest = spec_children_fold(gs, src, t, nd.1, children.drop_first());
        (nd.0 + sep + rest.0, rest.1)
    }
}

/// What printing the children emits: nothing when there are none, else the
/// soft or hard box around the child run, closed one step shallower.
pub open spec fn spec_children_toks(
    gs: GSettings,
    src: Option<Seq<char>>,
    t: Seq<GEntry>,
    st: FState,
    children: Seq<Node>,
    attribute_count: int,
) -> (Seq<GTok>, FState)
    decreases nodes_size(children), 3int,
{
    if children.len() == 0 {
        (Seq::<GTok>::empty(), st)
    } else {
        let soft = spec_children_soft(children, attribute_count);
        let head = if soft {
            seq![
                GTok::Begin { indent: gs.tab_spaces, cons: true },
                GTok::Brk { blank: 0, dedent: 0, never: false },
                GTok::Begin { indent: 0, cons: false },
            ]
        } else {
            seq![
                GTok::Brk { blank: 0, dedent: 0, never: true },
                GTok::Begin { indent: gs.tab_spaces, cons: true },
                GTok::Brk { blank: HARD_BLANK as int, dedent: 0, never: false },
            ]
        };
        let f = spec_children_fold(gs, src, t, st, children);
        let tail = if soft {
            seq![
                GTok::End,
                GTok::Brk { blank: 0, dedent: gs.tab_spaces, never: false },
                GTok::End,
            ]
        } else {
            seq![
                GTok::Brk { blank: HARD_BLANK as int, dedent: gs.tab_spaces, never: false },
                GTok::End,
            ]
        };
        (head + f.0 + tail, f.1)
    }
}

/// What printing the opening tag emits: `<`, the name and generics, the
/// attribute list, and `>` or `/>`.
pub open spec fn spec_opening_toks(
    gs: GSettings,
    src: Option<Seq<char>>,
    t: Seq<GEntry>,
    st: FState,
    e: Element,
    sc: bool,
) -> (Seq<GTok>, FState) {
    let nm = spec_name_toks(src, t, st, e.name);
    let gen = match e.generics {
        Some(g) => seq![GTok::Text(g@)],
        None => Seq::<GTok>::empty(),
    };
    let at = spec_attributes_toks(gs, src, t, nm.1, e.attributes@, sc);
    (
        seq![GTok::Text("<"@)] + nm.0 + gen + at.0 + (if sc {
            seq![GTok::Text("/>"@)]
        } else {
            seq![GTok::Text(">"@)]
        }),
        at.1,
    )
}

/// What printing the closing tag emits, from the element's own name.
pub open spec fn spec_closing_toks(
    src: Option<Seq<char>>,
    t: Seq<GEntry>,
    st: FState,
    e: Element,
) -> (Seq<GTok>, FState) {
    let nm = spec_name_toks(src, t, st, e.name);
    let gen = match e.generics {
        Some(g) => seq![GTok::Text(g@)],
        None => Seq::<GTok>::empty(),
    };
    (seq![GTok::Text("</"@)] + nm.0 + gen + seq![GTok::Text(">"@)], nm.1)
}

/// What printing an element emits and how it moves the walk state: the
/// opening tag, and unless it renders self-closing the children, the flush
/// before the closing tag, and the closing tag.
pub open spec fn spec_element_toks(
    gs: GSettings,
    src: Option<Seq<char>>,
    t: Seq<GEntry>,
    st: FState,
    e: Element,
) -> (Seq<GTok>, FState)
    decreases node_size(Node::Element(e)), 0int,
{
    let sc = spec_is_self_closing(e, gs.closing_style);
    let op = spec_opening_toks(gs, src, t, st, e, sc);
    if sc {
        op
    } else {
        let ch = spec_children_toks(gs, src, t, op.1, e.children@, e.attributes@.len() as int);
        let close_line = match e.close_span {
            Some(cs) => spec_line0u(cs.end.line),
            None => 0,
        };
        let fl = spec_flush(t, ch.1, close_line, true);
        let cl = spec_closing_toks(src, t, fl.1, e);
        (op.0 + ch.0 + fl.0 + cl.0, cl.1)
    }
}

impl Formatter {
    /// Print an element: its opening tag, and unless it is self-closing its
    /// children and closing tag, with comments before the closing tag
    /// flushed.
    #[verifier::rlimit(100)]
    pub fn element(&mut self, element: &Element) -> (u: ())
        requires
            old(self).wf(),
        ensures
            final(self).wf(),
            preserves(*old(self), *final(self)),
            crate::printer::extends(old(self).printer@, final(self).printer@),
            crate::printer::seg_delta(final(self).printer@) == crate::printer::seg_delta(
                old(self).printer@,
            ),
            crate::printer::seg_min(final(self).printer@) == crate::printer::seg_min(
                old(self).printer@,
            ),
            final(self).printer@.len() > old(self).printer@.len(),
            walk_post(
                *old(self),
                *final(self),
                spec_element_toks(
                    crate::formatter::settings_view(old(self).settings),
                    source_view(*old(self)),
                    old(self).whitespace_and_comments@,
                    fstate_of(*old(self)),
                    *element,
                ),
            ),
        decreases node_size(Node::Element(*element)), 0int,
    {
        proof {
            crate::printer::lemma_seg_min_le_delta(old(self).printer@);
        }
        let ghost pre = *self;
        let ghost gs = crate::formatter::settings_view(pre.settings);
        let ghost src0 = source_view(pre);
        let ghost t0 = pre.whitespace_and_comments@;
        let ghost out = spec_element_toks(gs, src0, t0, fstate_of(pre), *element);
        let self_closing: bool = is_self_closing(element, self.settings.closing_tag_style);
        self.opening_tag(element, self_closing);
        let ghost op = spec_opening_toks(gs, src0, t0, fstate_of(pre), *element, self_closing);
        if !self_closing {
            self.children(&element.children, element.attributes.len());
            let ghost ch = spec_children_toks(
                gs,
                src0,
                t0,
                op.1,
                element.children@,
                element.attributes@.len() as int,
            );
            let close_line: usize = match &element.close_span {
                Some(cs) => line0(cs.end.line),
                None => 0,
            };
            self.flush_comments(close_line, true);
            let ghost fl = spec_flush(t0, ch.1, close_line, true);
            self.closing_tag(element);
            proof {
                assert(self.printer@ =~= pre.printer@ + (op.0 + ch.0 + fl.0 + spec_closing_toks(
                    src0,
                    t0,
                    fl.1,
                    *element,
                ).0));
                assert(walk_post(pre, *self, out));
            }
        } else {
            proof {
                assert(walk_post(pre, *self, out));
            }
        }
    }

    /// Print the opening tag: `<name generics attributes>` or `.. />`.
    #[verifier::rlimit(100)]
    fn opening_tag(&mut self, element: &Element, self_closing: bool) -> (u: ())
        requires
            old(self).wf(),
        ensures
            final(self).wf(),
            preserves(*old(self), *final(self)),
            crate::printer::extends(old(self).printer@, final(self).printer@),
            crate::printer::seg_delta(final(self).printer@) == crate::printer::seg_delta(
                old(self).printer@,
            ),
            crate::printer::seg_min(final(self).printer@) == crate::printer::seg_min(
                old(self).printer@,
            ),
            final(self).printer@.len() > old(self).printer@.len(),
            walk_post(
                *old(self),
                *final(self),
                spec_opening_toks(
                    crate::formatter::settings_view(old(self).settings),
                    source_view(*old(self)),
                    old(self).whitespace_and_comments@,
                    fstate_of(*old(self)),
                    *element,
                    self_closing,
                ),
            ),
    {
        proof {
            crate::printer::lemma_seg_min_le_delta(old(self).printer@);
        }
        let ghost pre = *self;
        let ghost gs = crate::formatter::settings_view(pre.settings);
        let ghost src0 = source_view(pre);
        let ghost t0 = pre.whitespace_and_comments@;
        let ghost out = spec_opening_toks(gs, src0, t0, fstate_of(pre), *element, self_closing);
        self.printer.word("<");
        self.node_name(&element.name);
        let ghost nm = spec_name_toks(src0, t0, fstate_of(pre), element.name);
        match &element.generics {
            Some(g) => self.printer.word(g.as_str()),
            None => {},
        }
        self.attributes(&element.attributes, self_closing);
        let ghost at = spec_attributes_toks(gs, src0, t0, nm.1, element.attributes@, self_closing);
        if self_closing {
            self.printer.word("/>");
        } else {
            self.printer.word(">");
        }
        proof {
            assert(self.printer@ =~= pre.printer@ + out.0);
            assert(walk_post(pre, *self, out));
        }
    }

    /// Print the closing tag from the element's own name, so that an element
    /// whose source had no closing tag can still be closed.
    fn closing_tag(&mut self, element: &Element) -> (u: ())
        requires
            old(self).wf(),
        ensures
            final(self).wf(),
            preserves(*old(self), *final(self)),
            crate::printer::extends(old(self).printer@, final(self).printer@),
            crate::printer::seg_delta(final(self).printer@) == crate::printer::seg_delta(
                old(self).printer@,
            ),
            crate::printer::seg_min(final(self).printer@) == crate::printer::seg_min(
                old(self).printer@,
            ),
            final(self).printer@.len() > old(self).printer@.len(),
            walk_post(
                *old(self),
                *final(self),
                spec_closing_toks(
                    source_view(*old(self)),
                    old(self).whitespace_and_comments@,
                    fstate_of(*old(self)),
                    *element,
                ),
            ),
    {
        proof {
            crate::printer::lemma_seg_min_le_delta(old(self).printer@);
        }
        let ghost pre = *self;
        let ghost out = spec_closing_toks(
            source_view(pre),
            pre.whitespace_and_comments@,
            fstate_of(pre),
            *element,
        );
        self.printer.word("</");
        self.node_name(&element.name);
        match &element.generics {
            Some(g) => self.printer.word(g.as_str()),
            None => {},
        }
        self.printer.word(">");
        proof {
            assert(self.printer@ =~= pre.printer@ + out.0);
            assert(walk_post(pre, *self, out));
        }
    }

    /// Print the attribute list.  No attributes print nothing (a lone
    /// non-breaking space before a self-closing slash); one attribute stays
    /// inline; two or more go into a consistent box, one per line when it
    /// breaks.
    fn attributes(&mut self, attributes: &Vec<Attribute>, trailing_space: bool) -> (u: ())
        requires
            old(self).wf(),
        ensures
            final(self).wf(),
            preserves(*old(self), *final(self)),
            crate::printer::extends(old(self).printer@, final(self).printer@),
            crate::printer::seg_delta(final(self).printer@) == crate::printer::seg_delta(
                old(self).printer@,
            ),
            crate::printer::seg_min(final(self).printer@) == crate::printer::seg_min(
                old(self).printer@,
            ),
            attributes@.len() > 0 || trailing_space ==> final(self).printer@.len() > old(
                self,
            ).printer@.len(),
            walk_post(
                *old(self),
                *final(self),
                spec_attributes_toks(
                    crate::formatter::settings_view(old(self).settings),
                    source_view(*old(self)),
                    old(self).whitespace_and_comments@,
                    fstate_of(*old(self)),
                    attributes@,
                    trailing_space,
                ),
            ),
    {
        proof {
            crate::printer::lemma_seg_min_le_delta(old(self).printer@);
        }
        let ghost pre = *self;
        let ghost gs = crate::formatter::settings_view(pre.settings);
        let ghost src0 = source_view(pre);
        let ghost t0 = pre.whitespace_and_comments@;
        let ghost st0 = fstate_of(pre);
        let ghost out = spec_attributes_toks(gs, src0, t0, st0, attributes@, trailing_space);
        let n: usize = attributes.len();
        if n == 0 {
            if trailing_space {
                self.printer.nbsp();
            }
            proof {
                assert(self.printer@ =~= pre.printer@ + out.0);
                assert(walk_post(pre, *self, out));
            }
        } else if n == 1 {
            self.printer.cbox(0);
            self.printer.nbsp();
            self.attribute(&attributes[0], None);
            if trailing_space {
                self.printer.nbsp();
            }
            self.printer.end();
            proof {
                assert(attributes@[0] == attributes@.index(0));
                assert(self.printer@ =~= pre.printer@ + out.0);
                assert(walk_post(pre, *self, out));
            }
        } else {
            self.printer.cbox_indent();
            self.printer.space();
            let ghost base2 = self.printer@;
            let ghost full = spec_attrs_fold(gs, src0, t0, st0, attributes@);
            proof {
                assert(attributes@.skip(0) =~= attributes@);
            }
            let mut i: usize = 0;
            while i < n
                invariant
                    self.wf(),
                    i <= n,
                    2 <= n,
                    n == attributes@.len(),
                    self.settings == old(self).settings,
                    self.source == old(self).source,
                    self.whitespace_and_comments.entries@ == old(
                        self,
                    ).whitespace_and_comments.entries@,
                    self.printer.cfg() == old(self).printer.cfg(),
                    crate::printer::extends(old(self).printer@, self.printer@),
                    self.printer@.len() > old(self).printer@.len(),
                    crate::printer::seg_delta(self.printer@) == crate::printer::seg_delta(
                        old(self).printer@,
                    ) + 1,
                    crate::printer::seg_min(self.printer@) == crate::printer::seg_min(
                        old(self).printer@,
                    ),
                    crate::printer::seg_min(old(self).printer@) <= crate::printer::seg_delta(
                        old(self).printer@,
                    ),
                    gs == crate::formatter::settings_view(self.settings),
                    src0 == source_view(*self),
                    t0 == self.whitespace_and_comments@,
                    full == spec_attrs_fold(gs, src0, t0, st0, attributes@),
                    self.printer@ + spec_attrs_fold(
                        gs,
                        src0,
                        t0,
                        fstate_of(*self),
                        attributes@.skip(i as int),
                    ).0 == base2 + full.0,
                    spec_attrs_fold(gs, src0, t0, fstate_of(*self), attributes@.skip(i as int)).1
                        == full.1,
                decreases n - i,
            {
                let ghost cur = *self;
                let ghost rest = attributes@.skip(i as int);
                proof {
                    assert(rest.first() == attributes@[i as int]);
                    assert(rest.drop_first() =~= attributes@.skip(i as int + 1));
                    if i + 1 < n {
                        assert(rest[1] == attributes@[i as int + 1]);
                    }
                }
                if i + 1 < n {
                    self.attribute(&attributes[i], Some(&attributes[i + 1]));
                    self.printer.space();
                } else {
                    self.attribute(&attributes[i], None);
                }
                proof {
                    let a = spec_attribute_toks(
                        gs,
                        src0,
                        t0,
                        fstate_of(cur),
                        attributes@[i as int],
                        if i + 1 < n {
                            attributes@[i as int + 1].spec_is_spread()
                        } else {
                            false
                        },
                    );
                    assert(self.printer@ + spec_attrs_fold(
                        gs,
                        src0,
                        t0,
                        fstate_of(*self),
                        attributes@.skip(i as int + 1),
                    ).0 =~= base2 + full.0);
                }
                i = i + 1;
            }
            proof {
                assert(attributes@.skip(n as int) =~= Seq::<Attribute>::empty());
            }
            if trailing_space {
                self.printer.space();
            } else {
                self.printer.zerobreak();
            }
            self.printer.end_dedent();
            proof {
                assert(self.printer@ =~= pre.printer@ + out.0);
                assert(walk_post(pre, *self, out));
            }
        }
    }

    /// Print the children.  A first child that is textual, with at most one
    /// attribute on the element, uses a soft box that may collapse to one
    /// line; otherwise a hard box puts every child on its own line.  Two
    /// children that touch in the source, the second being raw text, stay
    /// glued with no space between them.
    pub fn children(&mut self, children: &Vec<Node>, attribute_count: usize) -> (u: ())
        requires
            old(self).wf(),
        ensures
            final(self).wf(),
            preserves(*old(self), *final(self)),
            crate::printer::extends(old(self).printer@, final(self).printer@),
            crate::printer::seg_delta(final(self).printer@) == crate::printer::seg_delta(
                old(self).printer@,
            ),
            crate::printer::seg_min(final(self).printer@) == crate::printer::seg_min(
                old(self).printer@,
            ),
            children@.len() > 0 ==> final(self).printer@.len() > old(self).printer@.len(),
            walk_post(
                *old(self),
                *final(self),
                spec_children_toks(
                    crate::formatter::settings_view(old(self).settings),
                    source_view(*old(self)),
                    old(self).whitespace_and_comments@,
                    fstate_of(*old(self)),
                    children@,
                    attribute_count as int,
                ),
            ),
        decreases nodes_size(children@), 0int,
    {
        proof {
            crate::printer::lemma_seg_min_le_delta(old(self).printer@);
        }
        let ghost pre = *self;
        let ghost gs = crate::formatter::settings_view(pre.settings);
        let ghost src0 = source_view(pre);
        let ghost t0 = pre.whitespace_and_comments@;
        let ghost st0 = fstate_of(pre);
        let ghost out = spec_children_toks(gs, src0, t0, st0, children@, attribute_count as int);
        let n: usize = children.len();
        if n == 0 {
            proof {
                assert(self.printer@ =~= pre.printer@ + out.0);
            }
            return ;
        }
        let soft_break: bool = children_soft_break(children, attribute_count);
        if soft_break {
            self.printer.cbox_indent();
            self.printer.zerobreak();
            self.printer.ibox(0);
        } else {
            self.printer.neverbreak();
            self.printer.cbox_indent();
            self.printer.hardbreak();
        }
        let ghost base2 = self.printer@;
        let ghost full = spec_children_fold(gs, src0, t0, st0, children@);
        proof {
            assert(children@.skip(0) =~= children@);
        }
        let mut i: usize = 0;
        while i < n
            invariant
                self.wf(),
                i <= n,
                1 <= n,
                n == children@.len(),
                self.settings == old(self).settings,
                self.source == old(self).source,
                self.whitespace_and_comments.entries@ == old(
                    self,
                ).whitespace_and_comments.entries@,
                self.printer.cfg() == old(self).printer.cfg(),
                crate::printer::extends(old(self).printer@, self.printer@),
                self.printer@.len() > old(self).printer@.len(),
                crate::printer::seg_delta(self.printer@) == crate::printer::seg_delta(
                    old(self).printer@,
                ) + (if soft_break {
                    2int
                } else {
                    1int
                }),
                crate::printer::seg_min(self.printer@) == crate::printer::seg_min(
                    old(self).printer@,
                ),
                crate::printer::seg_min(old(self).printer@) <= crate::printer::seg_delta(
                    old(self).printer@,
                ),
                gs == crate::formatter::settings_view(self.settings),
                src0 == source_view(*self),
                t0 == self.whitespace_and_comments@,
                full == spec_children_fold(gs, src0, t0, st0, children@),
                self.printer@ + spec_children_fold(
                    gs,
                    src0,
                    t0,
                    fstate_of(*self),
                    children@.skip(i as int),
                ).0 == base2 + full.0,
                spec_children_fold(gs, src0, t0, fstate_of(*self), children@.skip(i as int)).1
                    == full.1,
            decreases n - i,
        {
            let ghost cur = *self;
            let ghost rest = children@.skip(i as int);
            proof {
                lemma_member_size(children@, i as int);
                assert(rest.first() == children@[i as int]);
                assert(rest.drop_first() =~= children@.skip(i as int + 1));
                if i + 1 < n {
                    assert(rest[1] == children@[i as int + 1]);
                }
            }
            self.node(&children[i]);
            if i + 1 < n {
                let curr_end = children[i].span().end;
                let next_start = children[i + 1].span().start;
                let consecutive: bool = curr_end.line == next_start.line && next_start.column
                    == curr_end.column;
                let next_is_raw: bool = matches!(&children[i + 1], Node::RawText { .. });
                if !next_is_raw && !consecutive {
                    self.printer.space();
                } else {
                    self.printer.zerobreak();
                }
            }
            proof {
                assert(self.printer@ + spec_children_fold(
                    gs,
                    src0,
                    t0,
                    fstate_of(*self),
                    children@.skip(i as int + 1),
                ).0 =~= base2 + full.0);
            }
            i = i + 1;
        }
        proof {
            assert(children@.skip(n as int) =~= Seq::<Node>::empty());
        }
        if soft_break {
            self.printer.end();
            self.printer.zerobreak();
        } else {
            self.printer.hardbreak();
        }
        self.printer.end_dedent();
        proof {
            assert(self.printer@ =~= pre.printer@ + out.0);
            assert(walk_post(pre, *self, out));
        }
    }
}

/// Round-trip of the closing form, for a non-void element without children:
/// under the preserve policy the element renders self-closing exactly when
/// its source used the self-closing form, while the self-closing and
/// non-self-closing policies force their form whatever the source used.
pub proof fn lemma_closing_tag_round_trip(e: Element)
    requires
        e.children@.len() == 0,
        !(match e.name {
            TagName::Ident(s) => spec_is_void(s@),
            TagName::Block(_) => false,
        }),
    ensures
        spec_is_self_closing(e, ClosingTagStyle::Preserve) == e.self_closed,
        spec_is_self_closing(e, ClosingTagStyle::SelfClosing),
        !spec_is_self_closing(e, ClosingTagStyle::NonSelfClosing),
{
}

/// An element with children never renders self-closing, under any policy.
pub proof fn lemma_children_forbid_self_closing(e: Element, style: ClosingTagStyle)
    requires
        e.children@.len() > 0,
    ensures
        !spec_is_self_closing(e, style),
{
}

/// Whether a child list lays out in a soft box that may collapse to one
/// line: its first child is textual — plain text, raw text or an embedded
/// expression block — and the element carries at most one attribute.
pub open spec fn spec_children_soft(children: Seq<Node>, attribute_count: int) -> bool {
    &&& children.len() > 0
    &&& (children[0] matches Node::Text { .. } || children[0] matches Node::RawText { .. }
        || children[0] matches Node::Block(_))
    &&& attribute_count <= 1
}

/// Whether a child list lays out in a soft box.
pub fn children_soft_break(children: &Vec<Node>, attribute_count: usize) -> (r: bool)
    ensures
        r == spec_children_soft(children@, attribute_count as int),
{
    children.len() > 0 && matches!(
        &children[0],
        Node::Text { .. } | Node::RawText { .. } | Node::Block(_),
    ) && attribute_count <= 1
}

} // verus!
