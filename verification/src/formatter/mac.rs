//! Formatting one occurrence of the construct: the parsed invocation, the
//! walk that prints it, and the entry point that renders it to text.

use vstd::prelude::*;

use crate::collect_comments::{extract_whitespace_and_comments, spec_gap_table, GEntry};
use crate::formatter::node::{line0, spec_line0u, spec_node_toks};
use crate::formatter::{
    fstate_of, lemma_flush_values_last, preserves, settings_view, source_view, spec_flush,
    spec_printer_cfg, spec_trim, walk_post, FState, Formatter, FormatterSettings, GSettings,
    ParentIndent, SourceText,
};
use crate::markup::{lemma_member_size, node_size, nodes_size, Node};
use crate::printer::{brk_dedented, GTok, Printer, HARD_BLANK};
use crate::span::Span;

verus! {

/// One invocation of the construct, as the collector hands it over: the
/// indentation of the line it starts on, the optional leading context
/// identifier and global class prefix, the parsed markup nodes, the macro's
/// path as written, its span, and the spans of its tokens in order for
/// comment recovery.
pub struct ViewMacro {
    pub parent_indent: ParentIndent,
    pub cx: Option<String>,
    pub global_class: Option<String>,
    pub nodes: Vec<Node>,
    pub span: Span,
    pub path: String,
    pub token_spans: Vec<Span>,
}

/// The columns the construct's own line indents by, saturated at the
/// machine's limit.
pub open spec fn spec_parent_cols(pi: ParentIndent, tab: int) -> int {
    let total = pi.tabs * tab + pi.spaces;
    if total > usize::MAX as int {
        usize::MAX as int
    } else {
        total
    }
}

/// The directives of the invocation's node run: the nodes in order, a hard
/// break between neighbours.
pub open spec fn spec_view_fold(
    gs: GSettings,
    src: Option<Seq<char>>,
    t: Seq<GEntry>,
    st: FState,
    nodes: Seq<Node>,
) -> (Seq<GTok>, FState)
    decreases nodes_size(nodes), 2int,
{
    if nodes.len() == 0 {
        (Seq::<GTok>::empty(), st)
    } else {
        let nd = spec_node_toks(gs, src, t, st, nodes.first());
        let sep = if nodes.len() > 1 {
            seq![GTok::Brk { blank: HARD_BLANK as int, dedent: 0, never: false }]
        } else {
            Seq::<GTok>::empty()
        };
        let rest = spec_view_fold(gs, src, t, nd.1, nodes.drop_first());
        (nd.0 + sep + rest.0, rest.1)
    }
}

/// What printing the invocation's body emits: the indented box, the nodes,
/// the closing break, and the final flush whose last break is rendered one
/// step shallower so the closing brace aligns with the invocation.
pub open spec fn spec_view_nodes_toks(
    gs: GSettings,
    src: Option<Seq<char>>,
    t: Seq<GEntry>,
    st: FState,
    nodes: Seq<Node>,
    mac_span: Span,
) -> (Seq<GTok>, FState)
    decreases nodes_size(nodes), 3int,
{
    let head = seq![
        GTok::Begin { indent: gs.tab_spaces, cons: true },
        GTok::Brk { blank: 1, dedent: 0, never: false },
    ];
    let f = spec_view_fold(gs, src, t, st, nodes);
    let fl = spec_flush(t, f.1, spec_line0u(mac_span.end.line), true);
    let tail = if fl.0.len() == 0 {
        seq![GTok::Brk { blank: 1, dedent: gs.tab_spaces, never: false }, GTok::End]
    } else {
        seq![GTok::Brk { blank: 1, dedent: 0, never: false }] + fl.0.drop_last().push(
            brk_dedented(fl.0.last(), gs.tab_spaces),
        ) + seq![GTok::End]
    };
    (head + f.0 + tail, fl.1)
}

/// What printing one invocation emits: the outer box at the invocation's
/// indentation, the flush before it, `path! {`, the optional context and
/// global class, the body, and the closing brace.
pub open spec fn spec_view_macro_toks(
    gs: GSettings,
    src: Option<Seq<char>>,
    t: Seq<GEntry>,
    st: FState,
    m: ViewMacro,
) -> (Seq<GTok>, FState)
    decreases nodes_size(m.nodes@), 4int,
{
    let f1 = spec_flush(t, st, spec_line0u(m.span.start.line), false);
    let cx = match m.cx {
        Some(c) => seq![GTok::Text(" "@), GTok::Text(c@), GTok::Text(","@)],
        None => Seq::<GTok>::empty(),
    };
    let gc = match m.global_class {
        Some(g) => seq![GTok::Text(" class="@), GTok::Text(g@), GTok::Text(","@)],
        None => Seq::<GTok>::empty(),
    };
    let first_line = if m.nodes@.len() > 0 {
        m.nodes@[0].spec_span().start.line
    } else {
        m.span.start.line
    };
    let st2 = spec_trim(t, f1.1, spec_line0u(first_line));
    let nd = spec_view_nodes_toks(gs, src, t, st2, m.nodes@, m.span);
    (
        seq![GTok::Begin { indent: spec_parent_cols(m.parent_indent, gs.tab_spaces), cons: true }]
            + f1.0 + seq![GTok::Text(m.path@ + "! {"@)] + cx + gc + nd.0 + seq![
            GTok::Text("}"@),
            GTok::End,
        ],
        nd.1,
    )
}

impl Formatter {
    /// Print one invocation: `path! {`, the optional context and global
    /// class, the nodes, and the closing brace, all in a box that starts at
    /// the invocation's own indentation.
    #[verifier::rlimit(100)]
    pub fn view_macro(&mut self, view_mac: &ViewMacro) -> (u: ())
        requires
            old(self).wf(),
        ensures
            final(self).wf(),
            preserves(*old(self), *final(self)),
            crate::printer::extends(old(self).printer@, final(self).printer@),
            crate::printer::seg_delta(final(self).printer@) == crate::printer::seg_delta(
                old(self).printer@,
            ),
            crate::printer::seg_min(final(self).printer@) == crate::printer::seg_min(
                old(self).printer@,
            ),
            final(self).printer@.len() > old(self).printer@.len(),
            walk_post(
                *old(self),
                *final(self),
                spec_view_macro_toks(
                    settings_view(old(self).settings),
                    source_view(*old(self)),
                    old(self).whitespace_and_comments@,
                    fstate_of(*old(self)),
                    *view_mac,
                ),
            ),
    {
        proof {
            crate::printer::lemma_seg_min_le_delta(old(self).printer@);
        }
        let ghost pre = *self;
        let ghost gs = settings_view(pre.settings);
        let ghost src0 = source_view(pre);
        let ghost t0 = pre.whitespace_and_comments@;
        let ghost out = spec_view_macro_toks(gs, src0, t0, fstate_of(pre), *view_mac);
        let tab: usize = self.settings.tab_spaces;
        proof {
            assert((view_mac.parent_indent.tabs as u128) as int * (tab as u128) as int
                <= 0xFFFF_FFFF_FFFF_FFFFu128 as int * 0xFFFF_FFFF_FFFF_FFFFu128 as int)
                by (nonlinear_arith)
                requires
                    (view_mac.parent_indent.tabs as u128) as int
                        <= 0xFFFF_FFFF_FFFF_FFFFu128 as int,
                    (tab as u128) as int <= 0xFFFF_FFFF_FFFF_FFFFu128 as int,
            ;
        }
        let prod: u128 = (view_mac.parent_indent.tabs as u128) * (tab as u128);
        let total: u128 = prod + (view_mac.parent_indent.spaces as u128);
        let cols: usize = if total > (usize::MAX as u128) {
            usize::MAX
        } else {
            total as usize
        };
        proof {
            assert(cols as int == spec_parent_cols(view_mac.parent_indent, gs.tab_spaces));
        }
        self.printer.cbox(cols);
        self.flush_comments(line0(view_mac.span.start.line), false);
        let ghost f1 = spec_flush(t0, fstate_of(pre), spec_line0u(view_mac.span.start.line), false);
        let mut head: String = String::from_str(view_mac.path.as_str());
        head.append("! {");
        self.printer.word_string(head);
        match &view_mac.cx {
            Some(cx) => {
                self.printer.word(" ");
                self.printer.word(cx.as_str());
                self.printer.word(",");
            },
            None => {},
        }
        match &view_mac.global_class {
            Some(gc) => {
                self.printer.word(" class=");
                self.printer.word(gc.as_str());
                self.printer.word(",");
            },
            None => {},
        }
        let first_line: usize = if view_mac.nodes.len() > 0 {
            view_mac.nodes[0].span().start.line
        } else {
            view_mac.span.start.line
        };
        proof {
            assert(first_line == (if view_mac.nodes@.len() > 0 {
                view_mac.nodes@[0].spec_span().start.line
            } else {
                view_mac.span.start.line
            }));
        }
        self.trim_whitespace(line0(first_line));
        let ghost st2 = spec_trim(t0, f1.1, spec_line0u(first_line));
        self.view_macro_nodes(&view_mac.nodes, view_mac.span);
        let ghost nd = spec_view_nodes_toks(gs, src0, t0, st2, view_mac.nodes@, view_mac.span);
        self.printer.word("}");
        self.printer.end();
        proof {
            assert(self.printer@ =~= pre.printer@ + out.0);
            assert(walk_post(pre, *self, out));
        }
    }

    /// Print the invocation's nodes, one per line, inside an indented box
    /// that collapses only for a single short node, and flush what the gap
    /// table still holds before the closing brace.
    fn view_macro_nodes(&mut self, nodes: &Vec<Node>, mac_span: Span) -> (u: ())
        requires
            old(self).wf(),
        ensures
            final(self).wf(),
            preserves(*old(self), *final(self)),
            crate::printer::extends(old(self).printer@, final(self).printer@),
            crate::printer::seg_delta(final(self).printer@) == crate::printer::seg_delta(
                old(self).printer@,
            ),
            crate::printer::seg_min(final(self).printer@) == crate::printer::seg_min(
                old(self).printer@,
            ),
            final(self).printer@.len() > old(self).printer@.len(),
            walk_post(
                *old(self),
                *final(self),
                spec_view_nodes_toks(
                    settings_view(old(self).settings),
                    source_view(*old(self)),
                    old(self).whitespace_and_comments@,
                    fstate_of(*old(self)),
                    nodes@,
                    mac_span,
                ),
            ),
    {
        proof {
            crate::printer::lemma_seg_min_le_delta(old(self).printer@);
        }
        let ghost pre = *self;
        let ghost gs = settings_view(pre.settings);
        let ghost src0 = source_view(pre);
        let ghost t0 = pre.whitespace_and_comments@;
        let ghost st0 = fstate_of(pre);
        let ghost out = spec_view_nodes_toks(gs, src0, t0, st0, nodes@, mac_span);
        self.printer.cbox_indent();
        self.printer.space();
        let ghost base2 = self.printer@;
        let ghost full = spec_view_fold(gs, src0, t0, st0, nodes@);
        proof {
            assert(nodes@.skip(0) =~= nodes@);
        }
        let n: usize = nodes.len();
        let mut i: usize = 0;
        while i < n
            invariant
                self.wf(),
                i <= n,
                n == nodes@.len(),
                self.settings == old(self).settings,
                self.source == old(self).source,
                self.whitespace_and_comments.entries@ == old(
                    self,
                ).whitespace_and_comments.entries@,
                self.printer.cfg() == old(self).printer.cfg(),
                crate::printer::extends(old(self).printer@, self.printer@),
                self.printer@.len() > old(self).printer@.len(),
                crate::printer::seg_delta(self.printer@) == crate::printer::seg_delta(
                    old(self).printer@,
                ) + 1,
                crate::printer::seg_min(self.printer@) == crate::printer::seg_min(
                    old(self).printer@,
                ),
                crate::printer::seg_min(old(self).printer@) <= crate::printer::seg_delta(
                    old(self).printer@,
                ),
                gs == settings_view(self.settings),
                src0 == source_view(*self),
                t0 == self.whitespace_and_comments@,
                full == spec_view_fold(gs, src0, t0, st0, nodes@),
                self.printer@ + spec_view_fold(
                    gs,
                    src0,
                    t0,
                    fstate_of(*self),
                    nodes@.skip(i as int),
                ).0 == base2 + full.0,
                spec_view_fold(gs, src0, t0, fstate_of(*self), nodes@.skip(i as int)).1 == full.1,
            decreases n - i,
        {
            let ghost rest = nodes@.skip(i as int);
            proof {
                lemma_member_size(nodes@, i as int);
                assert(rest.first() == nodes@[i as int]);
                assert(rest.drop_first() =~= nodes@.skip(i as int + 1));
            }
            self.node(&nodes[i]);
            if i + 1 < n {
                self.printer.hardbreak();
            }
            proof {
                assert(self.printer@ + spec_view_fold(
                    gs,
                    src0,
                    t0,
                    fstate_of(*self),
                    nodes@.skip(i as int + 1),
                ).0 =~= base2 + full.0);
            }
            i = i + 1;
        }
        proof {
            assert(nodes@.skip(n as int) =~= Seq::<Node>::empty());
        }
        self.printer.space();
        let ghost before_flush = self.printer@;
        self.flush_comments(line0(mac_span.end.line), true);
        let ghost fl = spec_flush(t0, full.1, spec_line0u(mac_span.end.line), true);
        proof {
            let end1 = crate::collect_comments::spec_drain_end(
                t0,
                full.1.next,
                spec_line0u(mac_span.end.line) as int,
            );
            let le = crate::formatter::spec_last_comment_end(t0, full.1.next, end1);
            let take_end = if le >= 0 {
                le
            } else {
                end1
            };
            lemma_flush_values_last(
                crate::formatter::spec_drained_values(t0, full.1.next, take_end),
                full.1.line_offset is Some,
                false,
            );
        }
        self.printer.end_dedent();
        proof {
            assert(self.printer@ =~= pre.printer@ + out.0);
            assert(walk_post(pre, *self, out));
        }
    }
}

/// Render one invocation to its replacement text.  With a source buffer the
/// original comments, blank lines and verbatim spans are recovered from it;
/// without one the nodes alone decide the output.  The walk builds a
/// well-nested document: every box it opens is closed before rendering.
pub fn format_macro(mac: &ViewMacro, settings: &FormatterSettings, source: Option<&str>) -> (r:
    String)
    ensures
        r@ == crate::printer::spec_render(
            spec_printer_cfg(
                *settings,
                match source {
                    Some(s) => Some(s@),
                    None => None,
                },
            ),
            spec_view_macro_toks(
                settings_view(*settings),
                match source {
                    Some(s) => Some(s@),
                    None => None,
                },
                match source {
                    Some(s) => spec_gap_table(s@, mac.token_spans@),
                    None => Seq::<GEntry>::empty(),
                },
                FState { next: 0, line_offset: None },
                *mac,
            ).0,
        ),
{
    match source {
        Some(src_text) => {
            let st: SourceText = SourceText::new(src_text);
            let printer_settings = settings.to_printer_settings(Some(&st.chars));
            let printer = Printer::new(printer_settings);
            let table = extract_whitespace_and_comments(src_text, &st.chars, &mac.token_spans);
            let dup: FormatterSettings = settings.duplicate();
            let mut f = Formatter::with_source(dup, printer, st, table);
            f.view_macro(mac);
            proof {
                assert(crate::printer::spec_balanced(f.printer@));
            }
            let p: Printer = f.printer;
            p.eof()
        },
        None => {
            let printer_settings = settings.to_printer_settings(None);
            let printer = Printer::new(printer_settings);
            let dup: FormatterSettings = settings.duplicate();
            let mut f = Formatter::new(dup, printer);
            f.view_macro(mac);
            proof {
                assert(f.whitespace_and_comments@ =~= Seq::<GEntry>::empty());
                assert(crate::printer::spec_balanced(f.printer@));
            }
            let p: Printer = f.printer;
            p.eof()
        },
    }
}

/// One leading token of the construct's argument list, as the splitter
/// inspects it: its kind and its text as written.
pub enum MacroToken {
    Ident(String),
    Punct(char),
    Group(String),
    Literal(String),
}

/// The text of a leading token.
pub open spec fn spec_tok_text(t: MacroToken) -> Seq<char> {
    match t {
        MacroToken::Ident(s) => s@,
        MacroToken::Punct(c) => seq![c],
        MacroToken::Group(s) => s@,
        MacroToken::Literal(s) => s@,
    }
}

/// Whether a token is the punctuation character `c`.
pub open spec fn spec_is_punct(t: MacroToken, c: char) -> bool {
    match t {
        MacroToken::Punct(c2) => c2 == c,
        _ => false,
    }
}

/// Whether a token is the identifier `name`.
pub open spec fn spec_is_ident(t: MacroToken, name: Seq<char>) -> bool {
    match t {
        MacroToken::Ident(s) => s@ == name,
        _ => false,
    }
}

/// What precedes the markup in the construct's arguments: the optional
/// context identifier, the optional global class prefix, and how many
/// leading tokens they occupy.
pub struct ArgsPrelude {
    pub cx: Option<String>,
    pub global_class: Option<String>,
    pub consumed: usize,
}

/// Detect the optional leading context identifier and `class = <expr>,`
/// global class prefix by fixed lookahead over the first four tokens: a
/// comma in second position marks an explicit context; after it, the exact
/// shape `class` `=` token `,` marks a global class.  Returns `None` when
/// `class =` begins the arguments but no comma follows its value: that
/// shape is not the construct's grammar.
pub fn split_macro_args(tokens: &Vec<MacroToken>) -> (r: Option<ArgsPrelude>)
    ensures
        ({
            let ts = tokens@;
            let explicit = ts.len() >= 2 && spec_is_punct(ts[1], ',');
            let off = if explicit {
                2int
            } else {
                0
            };
            let class_head = ts.len() >= off + 2 && spec_is_ident(ts[off], "class"@)
                && spec_is_punct(ts[off + 1], '=');
            let class_ok = class_head && ts.len() >= off + 4 && spec_is_punct(ts[off + 3], ',');
            &&& (r is None <==> (class_head && !class_ok))
            &&& r is Some ==> {
                let p = r.unwrap();
                &&& (p.cx is Some <==> explicit)
                &&& (explicit ==> p.cx.unwrap()@ == spec_tok_text(ts[0]))
                &&& (p.global_class is Some <==> class_ok)
                &&& (class_ok ==> p.global_class.unwrap()@ == spec_tok_text(ts[off + 2]))
                &&& p.consumed == off + (if class_ok {
                    4int
                } else {
                    0
                })
            }
        }),
{
    let n: usize = tokens.len();
    let explicit: bool = n >= 2 && matches!(&tokens[1], MacroToken::Punct(',') );
    let off: usize = if explicit {
        2
    } else {
        0
    };
    let cx: Option<String> = if explicit {
        Some(tok_text(&tokens[0]))
    } else {
        None
    };
    let class_head: bool = n >= off + 2 && matches!(&tokens[off], MacroToken::Ident(s) if crate::formatter::str_eq(s.as_str(), "class")) && matches!(&tokens[off + 1], MacroToken::Punct('='));
    if class_head {
        let class_ok: bool = n >= off + 4 && matches!(&tokens[off + 3], MacroToken::Punct(','));
        if !class_ok {
            return None;
        }
        let gc: String = tok_text(&tokens[off + 2]);
        Some(ArgsPrelude { cx, global_class: Some(gc), consumed: off + 4 })
    } else {
        Some(ArgsPrelude { cx, global_class: None, consumed: off })
    }
}

/// The text of a leading token.
pub fn tok_text(t: &MacroToken) -> (r: String)
    ensures
        r@ == spec_tok_text(*t),
{
    match t {
        MacroToken::Ident(s) => String::from_str(s.as_str()),
        MacroToken::Punct(c) => {
            let mut s = String::new();
            push_char(&mut s, *c);
            s
        },
        MacroToken::Group(s) => String::from_str(s.as_str()),
        MacroToken::Literal(s) => String::from_str(s.as_str()),
    }
}

/// Append one character to a string.  Relies on String::push.
#[verifier::external_body]
fn push_char(s: &mut String, c: char) -> (u: ())
    ensures
        final(s)@ == old(s)@.push(c),
{
    s.push(c);
}

} // verus!
