//! The document model and the line-breaking printer.
//!
//! A document is an ordered sequence of tokens: literal text, breakable
//! blanks, and nested boxes.  A box either breaks consistently (all of its
//! direct breaks become newlines, or none) or inconsistently ("fill" mode:
//! each break decides on its own, by whether the content up to the next break
//! still fits on the line).  The printer renders a token sequence into text
//! honoring a maximum line width, with a minimum budget (`min_space`) that a
//! deeply indented line is still granted.
//!
//! Rendering is defined by the spec-level interpreter `spec_render`, and the
//! executable printer is proved to produce exactly its result.  The size of a
//! box is the width of its flattened content; the size of a break is its own
//! blank width plus the width of everything up to the next break at its level
//! or an enclosing one.  A box fits if its size is at most the space left on
//! the line; a break in fill mode fits if its size is.

use vstd::prelude::*;

verus! {

/// Width assigned to a break that must always become a newline.
pub const HARD_BLANK: usize = 0xffff;

/// Lower clamp for the remaining-space counter.  Space never recovers except
/// at a newline, and every decision only asks whether a (nonnegative) size
/// exceeds it, so any value this far below zero behaves the same.
pub const SPACE_FLOOR: i128 = -0x1_0000_0000_0000_0000;

/// Printer configuration: maximum line width, columns per indent step,
/// minimum width budget granted after a newline, and the line-ending and
/// indentation-character styles.
#[derive(Clone, Copy, PartialEq, Eq, Structural, Debug)]
pub struct PrinterSettings {
    pub margin: usize,
    pub tab_spaces: usize,
    pub min_space: usize,
    pub crlf_line_endings: bool,
    pub hard_tabs: bool,
}

/// How the direct breaks of a box behave once the box does not fit.
#[derive(Clone, Copy, PartialEq, Eq, Structural, Debug)]
pub enum Breaks {
    Consistent,
    Inconsistent,
}

/// A breakable blank: `blank` columns wide when it stays on the line,
/// `dedent` columns removed from the box indent when it becomes a newline,
/// and `never` for a blank that must never become a newline.
#[derive(Clone, Copy, PartialEq, Eq, Structural, Debug)]
pub struct BreakTok {
    pub blank: usize,
    pub dedent: usize,
    pub never: bool,
}

/// One directive of a document.
#[derive(Debug)]
pub enum Tok {
    Text(String),
    Brk(BreakTok),
    Begin { indent: usize, breaks: Breaks },
    End,
}

/// The mathematical value of a directive.
pub ghost enum GTok {
    Text(Seq<char>),
    Brk { blank: int, dedent: int, never: bool },
    Begin { indent: int, cons: bool },
    End,
}

impl View for Tok {
    type V = GTok;

    open spec fn view(&self) -> GTok {
        match self {
            Tok::Text(s) => GTok::Text(s@),
            Tok::Brk(b) => GTok::Brk { blank: b.blank as int, dedent: b.dedent as int, never: b.never },
            Tok::Begin { indent, breaks } => GTok::Begin {
                indent: *indent as int,
                cons: *breaks == Breaks::Consistent,
            },
            Tok::End => GTok::End,
        }
    }
}

/// The width a directive contributes to a flattened (single-line) rendering.
pub open spec fn gtok_weight(t: GTok) -> int {
    match t {
        GTok::Text(s) => s.len() as int,
        GTok::Brk { blank, .. } => blank,
        GTok::Begin { .. } => 0,
        GTok::End => 0,
    }
}

/// Flat width from position `j` up to the `End` that closes `d` open boxes.
pub open spec fn spec_flat_to_end(toks: Seq<GTok>, j: int, d: int) -> int
    decreases toks.len() - j,
{
    if j < 0 || j >= toks.len() {
        0
    } else {
        match toks[j] {
            GTok::Begin { .. } => spec_flat_to_end(toks, j + 1, d + 1),
            GTok::End => if d <= 1 {
                0
            } else {
                spec_flat_to_end(toks, j + 1, d - 1)
            },
            t => gtok_weight(t) + spec_flat_to_end(toks, j + 1, d),
        }
    }
}

/// Flat width from position `j` up to the next break at relative depth `d`
/// or shallower.  Content of nested boxes counts whole; the scan crosses the
/// ends of enclosing boxes, as the measure of a break extends to the next
/// break point wherever it lies.
pub open spec fn spec_flat_to_break(toks: Seq<GTok>, j: int, d: int) -> int
    decreases toks.len() - j,
{
    if j < 0 || j >= toks.len() {
        0
    } else {
        match toks[j] {
            GTok::Begin { .. } => spec_flat_to_break(toks, j + 1, d + 1),
            GTok::End => spec_flat_to_break(toks, j + 1, d - 1),
            GTok::Brk { blank, .. } => if d <= 0 {
                0
            } else {
                blank + spec_flat_to_break(toks, j + 1, d)
            },
            GTok::Text(s) => s.len() + spec_flat_to_break(toks, j + 1, d),
        }
    }
}

/// The measure a rendering decision at position `i` compares against the
/// remaining space.
pub open spec fn spec_size(toks: Seq<GTok>, i: int) -> int {
    match toks[i] {
        GTok::Begin { .. } => spec_flat_to_end(toks, i + 1, 1),
        GTok::Brk { blank, .. } => blank + spec_flat_to_break(toks, i + 1, 0),
        GTok::Text(s) => s.len() as int,
        GTok::End => 0,
    }
}

/// A box being rendered: whether it fit on the line, the indent to restore
/// when it closes, and whether its breaks are consistent.
#[verifier::ext_equal]
pub ghost struct SpecFrame {
    pub fits: bool,
    pub saved_indent: int,
    pub cons: bool,
}

/// The printer's rendering state: output so far, space left on the line,
/// current indent, indentation and blanks pending before the next text, and
/// the stack of open boxes.
#[verifier::ext_equal]
pub ghost struct RState {
    pub out: Seq<char>,
    pub space: int,
    pub indent: int,
    pub pend_indent: int,
    pub pend_blanks: int,
    pub stack: Seq<SpecFrame>,
}

/// `n` copies of the character `c`.
pub open spec fn rep_char(c: char, n: int) -> Seq<char>
    decreases n,
{
    if n <= 0 {
        Seq::<char>::empty()
    } else {
        rep_char(c, n - 1).push(c)
    }
}

/// Characters that indent a line by `n` columns: either all spaces, or one
/// tab per `tab_spaces` columns with spaces for the remainder.
pub open spec fn spec_indent_chars(cfg: PrinterSettings, n: int) -> Seq<char> {
    if cfg.hard_tabs && cfg.tab_spaces > 0 {
        rep_char('\t', n / (cfg.tab_spaces as int)) + rep_char(' ', n % (cfg.tab_spaces as int))
    } else {
        rep_char(' ', n)
    }
}

/// What precedes the next printed text: pending line indentation, then
/// pending blanks.
pub open spec fn spec_pending(cfg: PrinterSettings, st: RState) -> Seq<char> {
    spec_indent_chars(cfg, st.pend_indent) + rep_char(' ', st.pend_blanks)
}

/// The configured line ending.
pub open spec fn spec_line_end(cfg: PrinterSettings) -> Seq<char> {
    if cfg.crlf_line_endings {
        seq!['\r', '\n']
    } else {
        seq!['\n']
    }
}

/// Remaining space, clamped below so it cannot decrease without bound.
pub open spec fn clamp_space(v: int) -> int {
    if v < SPACE_FLOOR as int {
        SPACE_FLOOR as int
    } else {
        v
    }
}

/// Whether a break stays on the line: never-breaking blanks always do; inside
/// a fitting box every blank does; a broken consistent box breaks every
/// direct blank; a broken fill box (and the top level) breaks a blank only
/// when what follows it does not fit.
pub open spec fn spec_brk_fits(st: RState, never: bool, sz: int) -> bool {
    if never {
        true
    } else if st.stack.len() == 0 {
        sz <= st.space
    } else {
        let f = st.stack.last();
        f.fits || (!f.cons && sz <= st.space)
    }
}

/// One rendering step.
pub open spec fn spec_step(cfg: PrinterSettings, st: RState, t: GTok, sz: int) -> RState {
    match t {
        GTok::Text(s) => RState {
            out: st.out + spec_pending(cfg, st) + s,
            space: clamp_space(st.space - s.len()),
            pend_indent: 0,
            pend_blanks: 0,
            ..st
        },
        GTok::Begin { indent, cons } => if sz > st.space {
            RState {
                stack: st.stack.push(SpecFrame { fits: false, saved_indent: st.indent, cons }),
                indent: st.indent + indent,
                ..st
            }
        } else {
            RState {
                stack: st.stack.push(SpecFrame { fits: true, saved_indent: st.indent, cons }),
                ..st
            }
        },
        GTok::End => if st.stack.len() == 0 {
            st
        } else {
            let f = st.stack.last();
            RState {
                stack: st.stack.drop_last(),
                indent: if f.fits {
                    st.indent
                } else {
                    f.saved_indent
                },
                ..st
            }
        },
        GTok::Brk { blank, dedent, never } => if spec_brk_fits(st, never, sz) {
            RState {
                pend_blanks: st.pend_blanks + blank,
                space: clamp_space(st.space - blank),
                ..st
            }
        } else {
            let ni = if st.indent - dedent >= 0 {
                st.indent - dedent
            } else {
                0
            };
            let sp = if cfg.margin - ni >= cfg.min_space {
                cfg.margin - ni
            } else {
                cfg.min_space as int
            };
            RState {
                out: st.out + spec_line_end(cfg),
                pend_indent: ni,
                pend_blanks: 0,
                space: sp,
                ..st
            }
        },
    }
}

/// The initial rendering state: a full line of `margin` columns.
pub open spec fn spec_init(cfg: PrinterSettings) -> RState {
    RState {
        out: Seq::<char>::empty(),
        space: cfg.margin as int,
        indent: 0,
        pend_indent: 0,
        pend_blanks: 0,
        stack: Seq::<SpecFrame>::empty(),
    }
}

/// Run the interpreter from position `i` in state `st`.
pub open spec fn spec_run(cfg: PrinterSettings, toks: Seq<GTok>, i: int, st: RState) -> RState
    decreases toks.len() - i,
{
    if i < 0 || i >= toks.len() {
        st
    } else {
        spec_run(cfg, toks, i + 1, spec_step(cfg, st, toks[i], spec_size(toks, i)))
    }
}

/// The text a document renders to.
pub open spec fn spec_render(cfg: PrinterSettings, toks: Seq<GTok>) -> Seq<char> {
    spec_run(cfg, toks, 0, spec_init(cfg)).out
}

/// How a directive changes the number of open boxes.
pub open spec fn tok_delta(t: GTok) -> int {
    match t {
        GTok::Begin { .. } => 1,
        GTok::End => -1,
        _ => 0,
    }
}

/// Net number of boxes a token sequence leaves open.
pub open spec fn seg_delta(toks: Seq<GTok>) -> int
    decreases toks.len(),
{
    if toks.len() == 0 {
        0
    } else {
        seg_delta(toks.drop_last()) + tok_delta(toks.last())
    }
}

/// The lowest open-box count reached over the prefixes of a token sequence:
/// nonnegative exactly when no `End` closes a box the sequence did not open.
pub open spec fn seg_min(toks: Seq<GTok>) -> int
    decreases toks.len(),
{
    if toks.len() == 0 {
        0
    } else {
        let m = seg_min(toks.drop_last());
        let d = seg_delta(toks);
        if d < m {
            d
        } else {
            m
        }
    }
}

/// A later document extends an earlier one: everything already emitted is
/// still there, in place.
pub open spec fn extends(pre: Seq<GTok>, post: Seq<GTok>) -> bool {
    &&& pre.len() <= post.len()
    &&& forall|i: int| 0 <= i < pre.len() ==> post[i] == pre[i]
}

/// A document whose boxes nest properly: no stray `End`, nothing left open.
pub open spec fn spec_balanced(toks: Seq<GTok>) -> bool {
    seg_delta(toks) == 0 && seg_min(toks) >= 0
}

/// The lowest open count over prefixes is at most the whole sequence's net
/// count: the full sequence is one of the prefixes.
pub proof fn lemma_seg_min_le_delta(s: Seq<GTok>)
    ensures
        seg_min(s) <= seg_delta(s),
{
    if s.len() == 0 {
        assert(seg_min(s) == 0);
        assert(seg_delta(s) == 0);
    }
}

/// Net open count and lowest open count distribute over concatenation.
pub proof fn lemma_seg_concat(a: Seq<GTok>, b: Seq<GTok>)
    ensures
        seg_delta(a + b) == seg_delta(a) + seg_delta(b),
        seg_min(a + b) == if seg_min(a) < seg_delta(a) + seg_min(b) {
            seg_min(a)
        } else {
            seg_delta(a) + seg_min(b)
        },
    decreases b.len(),
{
    if b.len() == 0 {
        assert(a + b =~= a);
    } else {
        lemma_seg_concat(a, b.drop_last());
        assert((a + b).drop_last() =~= a + b.drop_last());
        assert((a + b).last() == b.last());
    }
}

/// The mathematical values of a token vector, in order.
pub open spec fn views_of(ts: Seq<Tok>) -> Seq<GTok> {
    Seq::new(ts.len(), |i: int| ts[i]@)
}

proof fn lemma_views_push(ts: Seq<Tok>, t: Tok)
    ensures
        views_of(ts.push(t)) == views_of(ts).push(t@),
{
    assert(views_of(ts.push(t)) =~= views_of(ts).push(t@));
}

/// The document builder and renderer.  Directives are collected in order and
/// rendered by `eof`.
pub struct Printer {
    settings: PrinterSettings,
    toks: Vec<Tok>,
}

impl View for Printer {
    type V = Seq<GTok>;

    closed spec fn view(&self) -> Seq<GTok> {
        views_of(self.toks@)
    }
}

impl Printer {
    /// The configuration this printer renders with.
    pub closed spec fn cfg(&self) -> PrinterSettings {
        self.settings
    }

    pub fn new(settings: PrinterSettings) -> (r: Printer)
        ensures
            r@ == Seq::<GTok>::empty(),
            r.cfg() == settings,
    {
        let r = Printer { settings, toks: Vec::new() };
        proof {
            assert(r@ =~= Seq::<GTok>::empty());
        }
        r
    }

    /// Literal text.  Must not contain a line break: breaks enter a document
    /// only as break directives.
    pub fn word(&mut self, w: &str) -> (u: ())
        ensures
            final(self)@ == old(self)@.push(GTok::Text(w@)),
            final(self).cfg() == old(self).cfg(),
            seg_delta(final(self)@) == seg_delta(old(self)@) + 0,
            seg_min(final(self)@) == (if seg_delta(old(self)@) + 0 < seg_min(old(self)@) {
                seg_delta(old(self)@) + 0
            } else {
                seg_min(old(self)@)
            }),
    {
        let ghost before = self.toks@;
        self.toks.push(Tok::Text(String::from_str(w)));
        proof {
            lemma_views_push(before, self.toks@.last());
            assert(self@.drop_last() =~= views_of(before));
        }
    }

    /// Owned literal text.
    pub fn word_string(&mut self, w: String) -> (u: ())
        ensures
            final(self)@ == old(self)@.push(GTok::Text(w@)),
            final(self).cfg() == old(self).cfg(),
            seg_delta(final(self)@) == seg_delta(old(self)@) + 0,
            seg_min(final(self)@) == (if seg_delta(old(self)@) + 0 < seg_min(old(self)@) {
                seg_delta(old(self)@) + 0
            } else {
                seg_min(old(self)@)
            }),
    {
        let ghost before = self.toks@;
        let ghost v = w@;
        self.toks.push(Tok::Text(w));
        proof {
            lemma_views_push(before, self.toks@.last());
            assert(self@.drop_last() =~= views_of(before));
        }
    }

    /// A blank one column wide, or a newline.
    pub fn space(&mut self) -> (u: ())
        ensures
            final(self)@ == old(self)@.push(GTok::Brk { blank: 1, dedent: 0, never: false }),
            final(self).cfg() == old(self).cfg(),
            seg_delta(final(self)@) == seg_delta(old(self)@) + 0,
            seg_min(final(self)@) == (if seg_delta(old(self)@) + 0 < seg_min(old(self)@) {
                seg_delta(old(self)@) + 0
            } else {
                seg_min(old(self)@)
            }),
    {
        let ghost before = self.toks@;
        self.toks.push(Tok::Brk(BreakTok { blank: 1, dedent: 0, never: false }));
        proof {
            lemma_views_push(before, self.toks@.last());
            assert(self@.drop_last() =~= views_of(before));
        }
    }

    /// A blank of no width, or a newline.
    pub fn zerobreak(&mut self) -> (u: ())
        ensures
            final(self)@ == old(self)@.push(GTok::Brk { blank: 0, dedent: 0, never: false }),
            final(self).cfg() == old(self).cfg(),
            seg_delta(final(self)@) == seg_delta(old(self)@) + 0,
            seg_min(final(self)@) == (if seg_delta(old(self)@) + 0 < seg_min(old(self)@) {
                seg_delta(old(self)@) + 0
            } else {
                seg_min(old(self)@)
            }),
    {
        let ghost before = self.toks@;
        self.toks.push(Tok::Brk(BreakTok { blank: 0, dedent: 0, never: false }));
        proof {
            lemma_views_push(before, self.toks@.last());
            assert(self@.drop_last() =~= views_of(before));
        }
    }

    /// A break that always becomes a newline: its width makes any box that
    /// holds it too wide to fit.
    pub fn hardbreak(&mut self) -> (u: ())
        ensures
            final(self)@ == old(self)@.push(
                GTok::Brk { blank: HARD_BLANK as int, dedent: 0, never: false },
            ),
            final(self).cfg() == old(self).cfg(),
            seg_delta(final(self)@) == seg_delta(old(self)@) + 0,
            seg_min(final(self)@) == (if seg_delta(old(self)@) + 0 < seg_min(old(self)@) {
                seg_delta(old(self)@) + 0
            } else {
                seg_min(old(self)@)
            }),
    {
        let ghost before = self.toks@;
        self.toks.push(Tok::Brk(BreakTok { blank: HARD_BLANK, dedent: 0, never: false }));
        proof {
            lemma_views_push(before, self.toks@.last());
            assert(self@.drop_last() =~= views_of(before));
        }
    }

    /// A space that never becomes a newline: plain text.
    pub fn nbsp(&mut self) -> (u: ())
        ensures
            final(self)@ == old(self)@.push(GTok::Text(" "@)),
            final(self).cfg() == old(self).cfg(),
            seg_delta(final(self)@) == seg_delta(old(self)@) + 0,
            seg_min(final(self)@) == (if seg_delta(old(self)@) + 0 < seg_min(old(self)@) {
                seg_delta(old(self)@) + 0
            } else {
                seg_min(old(self)@)
            }),
    {
        self.word(" ")
    }

    /// A zero-width blank that never becomes a newline.
    pub fn neverbreak(&mut self) -> (u: ())
        ensures
            final(self)@ == old(self)@.push(GTok::Brk { blank: 0, dedent: 0, never: true }),
            final(self).cfg() == old(self).cfg(),
            seg_delta(final(self)@) == seg_delta(old(self)@) + 0,
            seg_min(final(self)@) == (if seg_delta(old(self)@) + 0 < seg_min(old(self)@) {
                seg_delta(old(self)@) + 0
            } else {
                seg_min(old(self)@)
            }),
    {
        let ghost before = self.toks@;
        self.toks.push(Tok::Brk(BreakTok { blank: 0, dedent: 0, never: true }));
        proof {
            lemma_views_push(before, self.toks@.last());
            assert(self@.drop_last() =~= views_of(before));
        }
    }

    /// Open a consistently breaking box whose content indents by `indent`
    /// more columns.
    pub fn cbox(&mut self, indent: usize) -> (u: ())
        ensures
            final(self)@ == old(self)@.push(GTok::Begin { indent: indent as int, cons: true }),
            final(self).cfg() == old(self).cfg(),
            seg_delta(final(self)@) == seg_delta(old(self)@) + 1,
            seg_min(final(self)@) == (if seg_delta(old(self)@) + 1 < seg_min(old(self)@) {
                seg_delta(old(self)@) + 1
            } else {
                seg_min(old(self)@)
            }),
    {
        let ghost before = self.toks@;
        self.toks.push(Tok::Begin { indent, breaks: Breaks::Consistent });
        proof {
            lemma_views_push(before, self.toks@.last());
            assert(self@.drop_last() =~= views_of(before));
        }
    }

    /// Open an inconsistently breaking ("fill") box.
    pub fn ibox(&mut self, indent: usize) -> (u: ())
        ensures
            final(self)@ == old(self)@.push(GTok::Begin { indent: indent as int, cons: false }),
            final(self).cfg() == old(self).cfg(),
            seg_delta(final(self)@) == seg_delta(old(self)@) + 1,
            seg_min(final(self)@) == (if seg_delta(old(self)@) + 1 < seg_min(old(self)@) {
                seg_delta(old(self)@) + 1
            } else {
                seg_min(old(self)@)
            }),
    {
        let ghost before = self.toks@;
        self.toks.push(Tok::Begin { indent, breaks: Breaks::Inconsistent });
        proof {
            lemma_views_push(before, self.toks@.last());
            assert(self@.drop_last() =~= views_of(before));
        }
    }

    /// Open a consistent box indented by one configured tab step.
    pub fn cbox_indent(&mut self) -> (u: ())
        ensures
            final(self)@ == old(self)@.push(
                GTok::Begin { indent: old(self).cfg().tab_spaces as int, cons: true },
            ),
            final(self).cfg() == old(self).cfg(),
            seg_delta(final(self)@) == seg_delta(old(self)@) + 1,
            seg_min(final(self)@) == (if seg_delta(old(self)@) + 1 < seg_min(old(self)@) {
                seg_delta(old(self)@) + 1
            } else {
                seg_min(old(self)@)
            }),
    {
        let n: usize = self.settings.tab_spaces;
        self.cbox(n)
    }

    /// Close the innermost box.
    pub fn end(&mut self) -> (u: ())
        ensures
            final(self)@ == old(self)@.push(GTok::End),
            final(self).cfg() == old(self).cfg(),
            seg_delta(final(self)@) == seg_delta(old(self)@) + (-1),
            seg_min(final(self)@) == (if seg_delta(old(self)@) + (-1) < seg_min(old(self)@) {
                seg_delta(old(self)@) + (-1)
            } else {
                seg_min(old(self)@)
            }),
    {
        let ghost before = self.toks@;
        self.toks.push(Tok::End);
        proof {
            lemma_views_push(before, self.toks@.last());
            assert(self@.drop_last() =~= views_of(before));
        }
    }

    /// Close the innermost box, rendering the break directly before it one
    /// tab step shallower, so that a closing delimiter aligns with the text
    /// that opened the box.
    pub fn end_dedent(&mut self) -> (u: ())
        ensures
            ({
                let prior = old(self)@;
                let t = old(self).cfg().tab_spaces as int;
                if prior.len() > 0 && (prior.last() is Brk) {
                    final(self)@ == prior.drop_last().push(brk_dedented(prior.last(), t)).push(GTok::End)
                } else {
                    final(self)@ == prior.push(GTok::End)
                }
            }),
            final(self).cfg() == old(self).cfg(),
            seg_delta(final(self)@) == seg_delta(old(self)@) - 1,
            seg_min(final(self)@) == (if seg_delta(old(self)@) - 1 < seg_min(old(self)@) {
                seg_delta(old(self)@) - 1
            } else {
                seg_min(old(self)@)
            }),
    {
        let ghost prior_toks = self.toks@;
        let tab: usize = self.settings.tab_spaces;
        let popped = self.toks.pop();
        match popped {
            Some(Tok::Brk(b)) => {
                self.toks.push(Tok::Brk(BreakTok { blank: b.blank, dedent: tab, never: b.never }));
                proof {
                    assert(views_of(self.toks@) =~= views_of(prior_toks).drop_last().push(
                        brk_dedented(views_of(prior_toks).last(), tab as int),
                    ));
                    assert(views_of(self.toks@).drop_last() =~= views_of(prior_toks).drop_last());
                    assert(seg_delta(views_of(self.toks@)) == seg_delta(views_of(prior_toks)));
                    assert(seg_min(views_of(self.toks@)) == seg_min(views_of(prior_toks)));
                }
            },
            Some(t) => {
                self.toks.push(t);
                proof {
                    assert(views_of(self.toks@) =~= views_of(prior_toks));
                }
            },
            None => {
                proof {
                    assert(views_of(self.toks@) =~= views_of(prior_toks));
                }
            },
        }
        let ghost before = self.toks@;
        self.toks.push(Tok::End);
        proof {
            lemma_views_push(before, self.toks@.last());
            assert(self@.drop_last() =~= views_of(before));
        }
    }
}

/// The break `g` with its dedent set to `t` columns; any other directive
/// unchanged.
pub open spec fn brk_dedented(g: GTok, t: int) -> GTok {
    match g {
        GTok::Brk { blank, dedent, never } => GTok::Brk { blank, dedent: t, never },
        _ => g,
    }
}

/// A rendering frame as the executable printer tracks it.
struct RFrame {
    fits: bool,
    saved: u128,
    cons: bool,
}

/// The mathematical view of a frame stack.
spec fn abs_frames(v: Seq<RFrame>) -> Seq<SpecFrame> {
    Seq::new(v.len(), |i: int| SpecFrame { fits: v[i].fits, saved_indent: v[i].saved as int, cons: v[i].cons })
}

/// The mathematical view of the executable rendering state.
spec fn abs_state(out: Seq<char>, space: i128, indent: u128, pi: u128, pb: u128, fr: Seq<RFrame>) -> RState {
    RState {
        out,
        space: space as int,
        indent: indent as int,
        pend_indent: pi as int,
        pend_blanks: pb as int,
        stack: abs_frames(fr),
    }
}

/// Largest value the remaining-space counter can take.
spec fn space_ceil(cfg: PrinterSettings) -> int {
    if cfg.margin >= cfg.min_space {
        cfg.margin as int
    } else {
        cfg.min_space as int
    }
}

/// Append `n` copies of the single character of `piece` to `out`.
fn append_repeat(out: &mut String, piece: &str, n: u128) -> (u: ())
    requires
        piece@.len() == 1,
    ensures
        final(out)@ == old(out)@ + rep_char(piece@[0], n as int),
{
    let ghost c = piece@[0];
    let ghost base = out@;
    let mut k: u128 = 0;
    proof {
        assert(out@ =~= base + rep_char(c, 0));
    }
    while k < n
        invariant
            k <= n,
            piece@.len() == 1,
            c == piece@[0],
            out@ == base + rep_char(c, k as int),
        decreases n - k,
    {
        out.append(piece);
        k = k + 1;
        proof {
            assert(piece@ =~= seq![c]);
            assert(out@ =~= base + rep_char(c, k as int));
        }
    }
}

/// Append the characters that indent a line by `n` columns.
fn append_indent(out: &mut String, cfg: PrinterSettings, n: u128) -> (u: ())
    ensures
        final(out)@ == old(out)@ + spec_indent_chars(cfg, n as int),
{
    let ghost base = out@;
    if cfg.hard_tabs && cfg.tab_spaces > 0 {
        let tab = cfg.tab_spaces as u128;
        let t: u128 = n / tab;
        let r: u128 = n % tab;
        proof {
            reveal_strlit("\t");
            reveal_strlit(" ");
        }
        append_repeat(out, "\t", t);
        append_repeat(out, " ", r);
        proof {
            assert(out@ =~= base + spec_indent_chars(cfg, n as int));
        }
    } else {
        proof {
            reveal_strlit(" ");
        }
        append_repeat(out, " ", n);
    }
}

/// Append the pending indentation and blanks before a piece of text.
fn flush_pending(out: &mut String, cfg: PrinterSettings, pi: u128, pb: u128) -> (u: ())
    ensures
        final(out)@ == old(out)@ + spec_indent_chars(cfg, pi as int) + rep_char(' ', pb as int),
{
    let ghost base = out@;
    append_indent(out, cfg, pi);
    proof {
        reveal_strlit(" ");
    }
    append_repeat(out, " ", pb);
}

/// The per-token measures that rendering decisions compare against the
/// remaining line space.
fn compute_sizes(toks: &Vec<Tok>) -> (sizes: Vec<u128>)
    ensures
        sizes@.len() == toks@.len(),
        forall|i: int|
            0 <= i < toks@.len() && ((views_of(toks@)[i] is Begin) || (views_of(toks@)[i] is Brk))
                ==> #[trigger] sizes@[i] as int == spec_size(views_of(toks@), i),
{
    let ghost g = views_of(toks@);
    let n: usize = toks.len();
    let mut sizes: Vec<u128> = Vec::new();
    let mut i: usize = 0;
    while i < n
        invariant
            g == views_of(toks@),
            n == toks@.len(),
            i <= n,
            sizes@.len() == i,
            forall|k: int|
                0 <= k < i && ((g[k] is Begin) || (g[k] is Brk)) ==> #[trigger] sizes@[k] as int
                    == spec_size(g, k),
        decreases n - i,
    {
        let sz: u128 = match &toks[i] {
            Tok::Begin { .. } => flat_to_end_from(toks, i),
            Tok::Brk(b) => {
                let tail = flat_to_break_from(toks, i);
                proof {
                    assert((b.blank as u128 + tail) as int == b.blank as int + tail as int) by {
                        assert(tail as int <= (n - i - 1) * 0xFFFF_FFFF_FFFF_FFFFu128 as int);
                        assert((n - i - 1) * 0xFFFF_FFFF_FFFF_FFFFu128 as int <= (
                        0xFFFF_FFFF_FFFF_FFFFu128 as int) * (0xFFFF_FFFF_FFFF_FFFFu128 as int));
                    };
                }
                b.blank as u128 + tail
            },
            Tok::Text(_) => 0,
            Tok::End => 0,
        };
        sizes.push(sz);
        i = i + 1;
    }
    sizes
}

/// Flat width of the box opened at `i`, up to its matching `End`.
fn flat_to_end_from(toks: &Vec<Tok>, i: usize) -> (r: u128)
    requires
        i < toks@.len(),
        views_of(toks@)[i as int] is Begin,
    ensures
        r as int == spec_flat_to_end(views_of(toks@), i + 1, 1),
        r as int <= (toks@.len() - i - 1) * 0xFFFF_FFFF_FFFF_FFFFu128 as int,
{
    let ghost g = views_of(toks@);
    let n: usize = toks.len();
    let mut j: usize = i + 1;
    let mut d: usize = 1;
    let mut acc: u128 = 0;
    let mut done: bool = false;
    while j < n && !done
        invariant
            g == views_of(toks@),
            n == toks@.len(),
            i + 1 <= j <= n,
            1 <= d <= j - i,
            acc as int <= (j - i - 1) * 0xFFFF_FFFF_FFFF_FFFFu128 as int,
            !done ==> acc as int + spec_flat_to_end(g, j as int, d as int) == spec_flat_to_end(
                g,
                i + 1,
                1,
            ),
            done ==> acc as int == spec_flat_to_end(g, i + 1, 1),
        decreases n - j, (if done { 0int } else { 1int }),
    {
        let ghost w = 0xFFFF_FFFF_FFFF_FFFFu128 as int;
        proof {
            assert((j - i - 1) * w + w == (j - i) * w);
            assert((j - i) * w <= w * w);
        }
        match &toks[j] {
            Tok::Begin { .. } => {
                d = d + 1;
                j = j + 1;
            },
            Tok::End => {
                if d == 1 {
                    done = true;
                } else {
                    d = d - 1;
                    j = j + 1;
                }
            },
            Tok::Brk(b) => {
                acc = acc + b.blank as u128;
                j = j + 1;
            },
            Tok::Text(s) => {
                acc = acc + s.unicode_len() as u128;
                j = j + 1;
            },
        }
    }
    proof {
        assert((toks@.len() - i - 1) * 0xFFFF_FFFF_FFFF_FFFFu128 as int >= (j - i - 1)
            * 0xFFFF_FFFF_FFFF_FFFFu128 as int);
    }
    acc
}

/// Flat width following the break at `i`, up to the next break at its level
/// or an enclosing one.
fn flat_to_break_from(toks: &Vec<Tok>, i: usize) -> (r: u128)
    requires
        i < toks@.len(),
        views_of(toks@)[i as int] is Brk,
    ensures
        r as int == spec_flat_to_break(views_of(toks@), i + 1, 0),
        r as int <= (toks@.len() - i - 1) * 0xFFFF_FFFF_FFFF_FFFFu128 as int,
{
    let ghost g = views_of(toks@);
    let n: usize = toks.len();
    let mut j: usize = i + 1;
    let mut d: i128 = 0;
    let mut acc: u128 = 0;
    let mut done: bool = false;
    while j < n && !done
        invariant
            g == views_of(toks@),
            n == toks@.len(),
            i + 1 <= j <= n,
            -(j as i128 - i as i128) <= d <= j as i128 - i as i128,
            acc as int <= (j - i - 1) * 0xFFFF_FFFF_FFFF_FFFFu128 as int,
            !done ==> acc as int + spec_flat_to_break(g, j as int, d as int) == spec_flat_to_break(
                g,
                i + 1,
                0,
            ),
            done ==> acc as int == spec_flat_to_break(g, i + 1, 0),
        decreases n - j, (if done { 0int } else { 1int }),
    {
        let ghost w = 0xFFFF_FFFF_FFFF_FFFFu128 as int;
        proof {
            assert((j - i - 1) * w + w == (j - i) * w);
            assert((j - i) * w <= w * w);
        }
        match &toks[j] {
            Tok::Begin { .. } => {
                d = d + 1;
                j = j + 1;
            },
            Tok::End => {
                d = d - 1;
                j = j + 1;
            },
            Tok::Brk(b) => {
                if d <= 0 {
                    done = true;
                } else {
                    acc = acc + b.blank as u128;
                    j = j + 1;
                }
            },
            Tok::Text(s) => {
                acc = acc + s.unicode_len() as u128;
                j = j + 1;
            },
        }
    }
    proof {
        assert((toks@.len() - i - 1) * 0xFFFF_FFFF_FFFF_FFFFu128 as int >= (j - i - 1)
            * 0xFFFF_FFFF_FFFF_FFFFu128 as int);
    }
    acc
}

/// Render a document: the executable counterpart of `spec_render`.
fn render_doc(toks: &Vec<Tok>, cfg: PrinterSettings) -> (r: String)
    ensures
        r@ == spec_render(cfg, views_of(toks@)),
{
    let ghost g = views_of(toks@);
    let ghost w = 0xFFFF_FFFF_FFFF_FFFFu128 as int;
    let sizes: Vec<u128> = compute_sizes(toks);
    let n: usize = toks.len();
    let mut out: String = String::new();
    let mut space: i128 = if cfg.margin as u128 <= 0x7FFF_FFFF_FFFF_FFFF_FFFF_FFFF_FFFF_FFFFu128 {
        cfg.margin as i128
    } else {
        0
    };
    let mut indent: u128 = 0;
    let mut pi: u128 = 0;
    let mut pb: u128 = 0;
    let mut frames: Vec<RFrame> = Vec::new();
    let mut i: usize = 0;
    proof {
        assert(abs_frames(frames@) =~= Seq::<SpecFrame>::empty());
        assert(abs_state(out@, space, indent, pi, pb, frames@) =~= spec_init(cfg));
    }
    while i < n
        invariant
            g == views_of(toks@),
            n == toks@.len(),
            sizes@.len() == n,
            forall|k: int|
                0 <= k < n && ((g[k] is Begin) || (g[k] is Brk)) ==> #[trigger] sizes@[k] as int
                    == spec_size(g, k),
            i <= n,
            SPACE_FLOOR as int <= space as int <= space_ceil(cfg),
            indent as int <= (i as int) * w,
            pi as int <= (i as int) * w,
            pb as int <= (i as int) * w,
            forall|k: int|
                0 <= k < frames@.len() ==> #[trigger] frames@[k].saved as int <= (i as int) * w,
            w == 0xFFFF_FFFF_FFFF_FFFFu128 as int,
            spec_run(cfg, g, i as int, abs_state(out@, space, indent, pi, pb, frames@))
                == spec_run(cfg, g, 0, spec_init(cfg)),
        decreases n - i,
    {
        let ghost st0 = abs_state(out@, space, indent, pi, pb, frames@);
        let ghost sz_spec = spec_size(g, i as int);
        proof {
            assert(spec_run(cfg, g, i as int, st0) == spec_run(
                cfg,
                g,
                i as int + 1,
                spec_step(cfg, st0, g[i as int], sz_spec),
            ));
            assert((i as int) * w + w == (i as int + 1) * w);
            assert((i as int + 1) * w <= (w + 1) * w);
        }
        match &toks[i] {
            Tok::Text(s) => {
                flush_pending(&mut out, cfg, pi, pb);
                out.append(s.as_str());
                let len: usize = s.unicode_len();
                let ns: i128 = space - len as i128;
                space = if ns < SPACE_FLOOR {
                    SPACE_FLOOR
                } else {
                    ns
                };
                pi = 0;
                pb = 0;
                proof {
                    assert(abs_state(out@, space, indent, pi, pb, frames@) =~= spec_step(
                        cfg,
                        st0,
                        g[i as int],
                        sz_spec,
                    ));
                }
            },
            Tok::Begin { indent: bi, breaks } => {
                let sz: u128 = sizes[i];
                let broken: bool = space < 0 || sz > space as u128;
                if broken {
                    frames.push(RFrame { fits: false, saved: indent, cons: *breaks == Breaks::Consistent });
                    indent = indent + *bi as u128;
                } else {
                    frames.push(RFrame { fits: true, saved: indent, cons: *breaks == Breaks::Consistent });
                }
                proof {
                    assert(abs_frames(frames@) =~= abs_frames(frames@.drop_last()).push(
                        abs_frames(frames@).last(),
                    ));
                    assert(abs_state(out@, space, indent, pi, pb, frames@) =~= spec_step(
                        cfg,
                        st0,
                        g[i as int],
                        sz_spec,
                    ));
                }
            },
            Tok::End => {
                let popped = frames.pop();
                match popped {
                    Some(f) => {
                        if !f.fits {
                            indent = f.saved;
                        }
                    },
                    None => {},
                }
                proof {
                    if st0.stack.len() > 0 {
                        assert(abs_frames(frames@) =~= abs_frames(frames@.push(
                            popped.unwrap(),
                        )).drop_last());
                    } else {
                        assert(abs_frames(frames@) =~= st0.stack);
                    }
                    assert(abs_state(out@, space, indent, pi, pb, frames@) =~= spec_step(
                        cfg,
                        st0,
                        g[i as int],
                        sz_spec,
                    ));
                }
            },
            Tok::Brk(b) => {
                let sz: u128 = sizes[i];
                let top_fits: bool = if frames.len() == 0 {
                    false
                } else {
                    frames[frames.len() - 1].fits
                };
                let top_cons: bool = if frames.len() == 0 {
                    false
                } else {
                    frames[frames.len() - 1].cons
                };
                let space_ok: bool = space >= 0 && sz <= space as u128;
                let fits: bool = b.never || (if frames.len() == 0 {
                    space_ok
                } else {
                    top_fits || (!top_cons && space_ok)
                });
                if fits {
                    pb = pb + b.blank as u128;
                    let ns: i128 = space - b.blank as i128;
                    space = if ns < SPACE_FLOOR {
                        SPACE_FLOOR
                    } else {
                        ns
                    };
                } else {
                    if cfg.crlf_line_endings {
                        proof {
                            reveal_strlit("\r\n");
                        }
                        out.append("\r\n");
                        proof {
                            assert("\r\n"@ =~= spec_line_end(cfg));
                        }
                    } else {
                        proof {
                            reveal_strlit("\n");
                        }
                        out.append("\n");
                        proof {
                            assert("\n"@ =~= spec_line_end(cfg));
                        }
                    }
                    let ni: u128 = if indent >= b.dedent as u128 {
                        indent - b.dedent as u128
                    } else {
                        0
                    };
                    pi = ni;
                    pb = 0;
                    space = if ni >= cfg.margin as u128 {
                        cfg.min_space as i128
                    } else {
                        let diff: u128 = cfg.margin as u128 - ni;
                        if diff >= cfg.min_space as u128 {
                            diff as i128
                        } else {
                            cfg.min_space as i128
                        }
                    };
                }
                proof {
                    assert(abs_state(out@, space, indent, pi, pb, frames@) =~= spec_step(
                        cfg,
                        st0,
                        g[i as int],
                        sz_spec,
                    ));
                }
            },
        }
        i = i + 1;
    }
    out
}

impl Printer {
    /// Whether the boxes of the document built so far nest properly.
    pub fn is_balanced(&self) -> (b: bool)
        ensures
            b == spec_balanced(self@),
    {
        let ghost g = views_of(self.toks@);
        let n: usize = self.toks.len();
        let mut i: usize = 0;
        let mut d: i128 = 0;
        let mut m: i128 = 0;
        proof {
            assert(g.take(0) =~= Seq::<GTok>::empty());
        }
        while i < n
            invariant
                g == views_of(self.toks@),
                n == self.toks@.len(),
                i <= n,
                -(i as int) <= d as int <= i as int,
                -(i as int) <= m as int <= 0,
                d as int == seg_delta(g.take(i as int)),
                m as int == if seg_min(g.take(i as int)) < 0 {
                    seg_min(g.take(i as int))
                } else {
                    0
                },
            decreases n - i,
        {
            proof {
                assert(g.take(i as int + 1).drop_last() =~= g.take(i as int));
                assert(g.take(i as int + 1).last() == g[i as int]);
            }
            match &self.toks[i] {
                Tok::Begin { .. } => {
                    d = d + 1;
                },
                Tok::End => {
                    d = d - 1;
                    if d < m {
                        m = d;
                    }
                },
                _ => {},
            }
            i = i + 1;
        }
        proof {
            assert(g.take(n as int) =~= g);
        }
        d == 0 && m >= 0
    }

    /// Render the document built so far into its final text.  Rendering is
    /// total: a caller that must reject a document whose boxes do not nest —
    /// always the sign of a bug in the code that emitted it — tests
    /// `is_balanced` first.
    pub fn eof(self) -> (r: String)
        ensures
            r@ == spec_render(self.cfg(), self@),
    {
        render_doc(&self.toks, self.settings)
    }
}

/// Run the interpreter from position `i` up to (not including) position `j`.
pub open spec fn spec_run_to(cfg: PrinterSettings, toks: Seq<GTok>, i: int, j: int, st: RState) -> RState
    decreases j - i,
{
    if i < 0 || i >= j || j > toks.len() {
        st
    } else {
        spec_run_to(cfg, toks, i + 1, j, spec_step(cfg, st, toks[i], spec_size(toks, i)))
    }
}

/// Running to the end of the tokens is the whole rendering.
pub proof fn lemma_run_to_end(cfg: PrinterSettings, toks: Seq<GTok>, i: int, st: RState)
    requires
        0 <= i <= toks.len(),
    ensures
        spec_run(cfg, toks, i, st) == spec_run_to(cfg, toks, i, toks.len() as int, st),
    decreases toks.len() - i,
{
    if i < toks.len() {
        lemma_run_to_end(cfg, toks, i + 1, spec_step(cfg, st, toks[i], spec_size(toks, i)));
    }
}

/// A single token's net open count.
proof fn lemma_seg_single(t: GTok)
    ensures
        seg_delta(seq![t]) == tok_delta(t),
{
    let s = seq![t];
    assert(s.len() == 1);
    assert(s.last() == t);
    assert(s.drop_last() =~= Seq::<GTok>::empty());
    assert(seg_delta(Seq::<GTok>::empty()) == 0);
    assert(seg_delta(s) == seg_delta(s.drop_last()) + tok_delta(s.last()));
}

/// Every prefix's net open count is at least the lowest open count.
proof fn lemma_seg_min_prefixes(s: Seq<GTok>, k: int)
    requires
        0 <= k <= s.len(),
    ensures
        seg_delta(s.take(k)) >= seg_min(s),
    decreases s.len(),
{
    if s.len() == 0 {
        assert(s.take(k) =~= s);
    } else if k == s.len() {
        assert(s.take(k) =~= s);
        lemma_seg_min_prefixes(s.drop_last(), 0);
    } else {
        assert(s.take(k) =~= s.drop_last().take(k));
        lemma_seg_min_prefixes(s.drop_last(), k);
    }
}

/// A run whose prefixes never close more boxes than they open, relative to
/// `keep` frames, leaves those bottom frames exactly as they were.
proof fn lemma_run_keeps_stack(
    cfg: PrinterSettings,
    toks: Seq<GTok>,
    i: int,
    j: int,
    st: RState,
    keep: int,
)
    requires
        0 <= i <= j <= toks.len(),
        0 <= keep <= st.stack.len(),
        forall|k2: int|
            i <= k2 <= j ==> st.stack.len() + seg_delta(#[trigger] toks.subrange(i, k2)) >= keep,
    ensures
        ({
            let r = spec_run_to(cfg, toks, i, j, st);
            &&& r.stack.len() == st.stack.len() + seg_delta(toks.subrange(i, j))
            &&& r.stack.subrange(0, keep) == st.stack.subrange(0, keep)
        }),
    decreases j - i,
{
    if i >= j {
        assert(toks.subrange(i, j) =~= Seq::<GTok>::empty());
        assert(st.stack.subrange(0, keep) == st.stack.subrange(0, keep));
    } else {
        let t = toks[i];
        let st2 = spec_step(cfg, st, t, spec_size(toks, i));
        assert(toks.subrange(i, i + 1) =~= seq![t]);
        lemma_seg_single(t);
        assert(st.stack.len() + tok_delta(t) >= keep);
        assert forall|k2: int| i + 1 <= k2 <= j implies st2.stack.len() + seg_delta(
            #[trigger] toks.subrange(i + 1, k2),
        ) >= keep by {
            assert(toks.subrange(i, k2) =~= seq![t] + toks.subrange(i + 1, k2));
            lemma_seg_concat(seq![t], toks.subrange(i + 1, k2));
            assert(st.stack.len() + seg_delta(toks.subrange(i, k2)) >= keep);
        }
        match t {
            GTok::Begin { .. } => {
                assert(st2.stack.len() == st.stack.len() + 1);
                assert(st2.stack.subrange(0, keep) =~= st.stack.subrange(0, keep));
            },
            GTok::End => {
                assert(st.stack.len() >= keep + 1);
                assert(st2.stack == st.stack.drop_last());
                assert(st2.stack.subrange(0, keep) =~= st.stack.subrange(0, keep));
            },
            _ => {
                assert(st2.stack == st.stack);
            },
        }
        lemma_run_keeps_stack(cfg, toks, i + 1, j, st2, keep);
        assert(toks.subrange(i, j) =~= seq![t] + toks.subrange(i + 1, j));
        lemma_seg_concat(seq![t], toks.subrange(i + 1, j));
    }
}

/// Width respect for a consistent box.  Consider a consistent box opened at
/// `i` and one of its direct breaks at `k` (the tokens between them are
/// balanced: every box opened after `i` closes before `k`).  The box is
/// marked broken exactly when its flattened content exceeds the space left
/// on the line.  When it broke, the box is the innermost box again at `k`
/// and the break renders as a line break; when it fit, the break stays a
/// blank and adds no line break.
pub proof fn lemma_width_respect(
    cfg: PrinterSettings,
    toks: Seq<GTok>,
    i: int,
    k: int,
    st: RState,
)
    requires
        0 <= i < k < toks.len(),
        toks[i] matches GTok::Begin { cons: true, .. },
        toks[k] matches GTok::Brk { never: false, .. },
        seg_delta(toks.subrange(i + 1, k)) == 0,
        seg_min(toks.subrange(i + 1, k)) >= 0,
    ensures
        ({
            let opened = spec_step(cfg, st, toks[i], spec_size(toks, i));
            let before = spec_run_to(cfg, toks, i + 1, k, opened);
            let after = spec_step(cfg, before, toks[k], spec_size(toks, k));
            &&& opened.stack.len() == st.stack.len() + 1
            &&& opened.stack.last().fits == (spec_size(toks, i) <= st.space)
            &&& before.stack == opened.stack
            &&& (spec_size(toks, i) > st.space ==> after.out == before.out + spec_line_end(cfg))
            &&& (spec_size(toks, i) <= st.space ==> after.out == before.out)
        }),
{
    let opened = spec_step(cfg, st, toks[i], spec_size(toks, i));
    let body = toks.subrange(i + 1, k);
    assert forall|k2: int| i + 1 <= k2 <= k implies opened.stack.len() + seg_delta(
        #[trigger] toks.subrange(i + 1, k2),
    ) >= opened.stack.len() as int by {
        assert(toks.subrange(i + 1, k2) =~= body.take(k2 - (i + 1)));
        lemma_seg_min_prefixes(body, k2 - (i + 1));
    }
    lemma_run_keeps_stack(cfg, toks, i + 1, k, opened, opened.stack.len() as int);
    let before = spec_run_to(cfg, toks, i + 1, k, opened);
    assert(before.stack =~= opened.stack) by {
        assert(before.stack.subrange(0, opened.stack.len() as int) == opened.stack.subrange(
            0,
            opened.stack.len() as int,
        ));
        assert(opened.stack.subrange(0, opened.stack.len() as int) =~= opened.stack);
        assert(before.stack.subrange(0, before.stack.len() as int) =~= before.stack);
    }
    assert(opened.stack == st.stack.push(
        SpecFrame {
            fits: !(spec_size(toks, i) > st.space),
            saved_indent: st.indent,
            cons: true,
        },
    ));
    assert(opened.stack.last().fits == (spec_size(toks, i) <= st.space));
    let after = spec_step(cfg, before, toks[k], spec_size(toks, k));
    assert(before.stack.len() > 0);
    assert(before.stack.last() == opened.stack.last());
    if spec_size(toks, i) > st.space {
        assert(!spec_brk_fits(before, false, spec_size(toks, k)));
        assert(after.out == before.out + spec_line_end(cfg));
    } else {
        assert(spec_brk_fits(before, false, spec_size(toks, k)));
        assert(after.out == before.out);
    }
}

} // verus!
