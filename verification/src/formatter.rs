//! Formatter configuration and the shared formatting state: the printer the
//! directives go to, the settings, the source buffer, and the gap table of
//! recovered comments and blank lines, drained in line order as nodes are
//! emitted.

pub mod attribute;
pub mod element;
pub mod expr;
pub mod fragment;
pub mod mac;
pub mod node;
pub mod tailwind;

use vstd::prelude::*;

use crate::collect_comments::{spec_drain_end, spec_skip_blanks, GEntry, GapTable};
use crate::printer::{GTok, Printer, PrinterSettings, HARD_BLANK};
use crate::span::spec_next_newline;

verus! {

/// Preferred closing form for a non-void element without children.
#[derive(Clone, Copy, Debug, PartialEq, Eq, Structural)]
pub enum ClosingTagStyle {
    /// Keep the form the source used.
    Preserve,
    /// `<div></div>` formats to `<div />`.
    SelfClosing,
    /// `<div />` formats to `<div></div>`.
    NonSelfClosing,
}

/// When braces surround a single-expression attribute value.
#[derive(Clone, Copy, Debug, PartialEq, Eq, Structural)]
pub enum AttributeValueBraceStyle {
    Always,
    AlwaysUnlessLit,
    WhenRequired,
    Preserve,
}

/// Which characters indent a line.
#[derive(Clone, Copy, Debug, PartialEq, Eq, Structural)]
pub enum IndentationStyle {
    Auto,
    Spaces,
    Tabs,
}

/// Which line ending the output uses.
#[derive(Clone, Copy, Debug, PartialEq, Eq, Structural)]
pub enum NewlineStyle {
    Auto,
    Native,
    Unix,
    Windows,
}

/// An alternate formatter applied to the textual value of chosen attributes.
#[derive(Clone, Copy, Debug, PartialEq, Eq, Structural)]
pub enum ExpressionFormatter {
    Tailwind,
}

/// The formatter's configuration.
#[derive(Clone, Debug)]
pub struct FormatterSettings {
    /// Maximum width of each line.
    pub max_width: usize,
    /// Number of spaces per tab.
    pub tab_spaces: usize,
    /// Determines indentation style (tabs or spaces).
    pub indentation_style: IndentationStyle,
    /// Determines line ending (unix or windows).
    pub newline_style: NewlineStyle,
    /// Determines placement of braces around single expression attribute values.
    pub attr_value_brace_style: AttributeValueBraceStyle,
    /// Preferred style for closing tags when a non-void element has no children.
    pub closing_tag_style: ClosingTagStyle,
    /// Fully qualified names of the macros to format.
    pub macro_names: Vec<String>,
    /// Attribute names whose string values go through an alternate formatter.
    pub attr_values: Vec<(String, ExpressionFormatter)>,
}

impl Default for FormatterSettings {
    fn default() -> (r: FormatterSettings)
        ensures
            r.max_width == 100,
            r.tab_spaces == 4,
            r.indentation_style == IndentationStyle::Auto,
            r.newline_style == NewlineStyle::Auto,
            r.attr_value_brace_style == AttributeValueBraceStyle::WhenRequired,
            r.closing_tag_style == ClosingTagStyle::Preserve,
            r.macro_names@.len() == 2,
            r.macro_names@[0]@ == "leptos::view"@,
            r.macro_names@[1]@ == "view"@,
            r.attr_values@.len() == 0,
    {
        let mut names: Vec<String> = Vec::new();
        names.push(String::from_str("leptos::view"));
        names.push(String::from_str("view"));
        FormatterSettings {
            max_width: 100,
            tab_spaces: 4,
            indentation_style: IndentationStyle::Auto,
            newline_style: NewlineStyle::Auto,
            attr_value_brace_style: AttributeValueBraceStyle::WhenRequired,
            closing_tag_style: ClosingTagStyle::Preserve,
            macro_names: names,
            attr_values: Vec::new(),
        }
    }
}

/// Whether two string slices hold the same characters.
pub fn str_eq(a: &str, b: &str) -> (r: bool)
    ensures
        r == (a@ == b@),
{
    let n: usize = a.unicode_len();
    let m: usize = b.unicode_len();
    if n != m {
        return false;
    }
    let mut i: usize = 0;
    while i < n
        invariant
            n == a@.len(),
            n == b@.len(),
            i <= n,
            forall|k: int| 0 <= k < i ==> a@[k] == b@[k],
        decreases n - i,
    {
        if a.get_char(i) != b.get_char(i) {
            return false;
        }
        i = i + 1;
    }
    proof {
        assert(a@ =~= b@);
    }
    true
}

impl FormatterSettings {
    /// Look up the alternate formatter for an attribute name.
    pub fn attr_value_formatter(&self, name: &str) -> (r: Option<ExpressionFormatter>)
        ensures
            r == spec_attr_lookup(settings_view(*self).attr_values, name@),
    {
        let ghost pv = settings_view(*self).attr_values;
        let n: usize = self.attr_values.len();
        let mut i: usize = 0;
        proof {
            assert(pv.skip(0) =~= pv);
        }
        while i < n
            invariant
                pv == settings_view(*self).attr_values,
                n == self.attr_values@.len(),
                n == pv.len(),
                i <= n,
                spec_attr_lookup(pv.skip(i as int), name@) == spec_attr_lookup(pv, name@),
            decreases n - i,
        {
            if str_eq(self.attr_values[i].0.as_str(), name) {
                proof {
                    assert(pv.skip(i as int)[0] == pv[i as int]);
                }
                return Some(self.attr_values[i].1);
            }
            proof {
                assert(pv.skip(i as int)[0] == pv[i as int]);
                assert(pv.skip(i as int).drop_first() =~= pv.skip(i as int + 1));
            }
            i = i + 1;
        }
        None
    }
}

/// Whether the first line of `text` ends in a carriage return and line feed.
pub open spec fn spec_uses_crlf(text: Seq<char>) -> bool {
    let j = spec_next_newline(text, 0);
    j < text.len() && j >= 1 && text[j - 1] == '\r'
}

/// Whether the first indented line of `text` is indented with a tab.
pub open spec fn spec_uses_tabs(text: Seq<char>, i: int) -> bool
    decreases text.len() - i,
{
    if i < 0 || i >= text.len() {
        false
    } else if text[i] == '\t' {
        true
    } else if text[i] == ' ' {
        false
    } else {
        let j = spec_next_newline(text, i);
        let nxt = if j < text.len() {
            j + 1
        } else {
            text.len() as int
        };
        if nxt <= i {
            false
        } else {
            spec_uses_tabs(text, nxt)
        }
    }
}

/// Whether the source uses carriage-return line endings, judged by its first
/// line.
pub fn uses_crlf_line_ending(text: &Vec<char>) -> (r: bool)
    ensures
        r == spec_uses_crlf(text@),
{
    let mut j: usize = 0;
    while j < text.len() && text[j] != '\n'
        invariant
            j <= text@.len(),
            spec_next_newline(text@, 0) == spec_next_newline(text@, j as int),
        decreases text@.len() - j,
    {
        j = j + 1;
    }
    j < text.len() && j >= 1 && text[j - 1] == '\r'
}

/// Whether the source indents with tabs, judged by the first line that starts
/// with a tab or a space.
pub fn uses_tabs_for_indentation(text: &Vec<char>) -> (r: bool)
    ensures
        r == spec_uses_tabs(text@, 0),
{
    let mut i: usize = 0;
    loop
        invariant
            i <= text@.len(),
            spec_uses_tabs(text@, 0) == spec_uses_tabs(text@, i as int),
        decreases text@.len() - i,
    {
        if i >= text.len() {
            return false;
        }
        if text[i] == '\t' {
            return true;
        }
        if text[i] == ' ' {
            return false;
        }
        let mut j: usize = i;
        while j < text.len() && text[j] != '\n'
            invariant
                i <= j <= text@.len(),
                spec_next_newline(text@, i as int) == spec_next_newline(text@, j as int),
            decreases text@.len() - j,
        {
            j = j + 1;
        }
        if j < text.len() {
            i = j + 1;
        } else {
            i = j;
        }
    }
}

/// The printer configuration a settings record asks for, against an
/// optional source text for the automatic styles.
pub open spec fn spec_printer_cfg(s: FormatterSettings, src: Option<Seq<char>>) -> PrinterSettings {
    PrinterSettings {
        margin: s.max_width,
        tab_spaces: s.tab_spaces,
        min_space: 60,
        crlf_line_endings: match s.newline_style {
            NewlineStyle::Auto => match src {
                Some(text) => spec_uses_crlf(text),
                None => false,
            },
            NewlineStyle::Native => false,
            NewlineStyle::Unix => false,
            NewlineStyle::Windows => true,
        },
        hard_tabs: match s.indentation_style {
            IndentationStyle::Auto => match src {
                Some(text) => spec_uses_tabs(text, 0),
                None => false,
            },
            IndentationStyle::Spaces => false,
            IndentationStyle::Tabs => true,
        },
    }
}

impl FormatterSettings {
    /// The printer configuration these settings ask for, with line-ending and
    /// indentation styles resolved against the source when they are automatic.
    /// Native line endings are taken to be line feeds.
    pub fn to_printer_settings(&self, source: Option<&Vec<char>>) -> (r: PrinterSettings)
        ensures
            r == spec_printer_cfg(
                *self,
                match source {
                    Some(text) => Some(text@),
                    None => None,
                },
            ),
            r.margin == self.max_width,
            r.tab_spaces == self.tab_spaces,
            r.min_space == 60,
            r.crlf_line_endings == match self.newline_style {
                NewlineStyle::Auto => match source {
                    Some(text) => spec_uses_crlf(text@),
                    None => false,
                },
                NewlineStyle::Native => false,
                NewlineStyle::Unix => false,
                NewlineStyle::Windows => true,
            },
            r.hard_tabs == match self.indentation_style {
                IndentationStyle::Auto => match source {
                    Some(text) => spec_uses_tabs(text@, 0),
                    None => false,
                },
                IndentationStyle::Spaces => false,
                IndentationStyle::Tabs => true,
            },
    {
        let crlf: bool = match self.newline_style {
            NewlineStyle::Auto => match source {
                Some(text) => uses_crlf_line_ending(text),
                None => false,
            },
            NewlineStyle::Native => false,
            NewlineStyle::Unix => false,
            NewlineStyle::Windows => true,
        };
        let hard_tabs: bool = match self.indentation_style {
            IndentationStyle::Auto => match source {
                Some(text) => uses_tabs_for_indentation(text),
                None => false,
            },
            IndentationStyle::Spaces => false,
            IndentationStyle::Tabs => true,
        };
        PrinterSettings {
            margin: self.max_width,
            tab_spaces: self.tab_spaces,
            min_space: 60,
            crlf_line_endings: crlf,
            hard_tabs: hard_tabs,
        }
    }
}

/// Command-line overrides merged over a loaded or default configuration.
pub struct SettingsOverrides {
    pub max_width: Option<usize>,
    pub tab_spaces: Option<usize>,
    pub override_macro_names: Option<Vec<String>>,
    pub experimental_tailwind: bool,
    pub tailwind_attr_names: Vec<String>,
}

/// The settings a run works with: the loaded configuration (or the default
/// when none was found), with each given override applied over it, and the
/// tailwind formatter attached to the chosen attribute names when asked for.
pub fn create_settings(base: Option<FormatterSettings>, args: SettingsOverrides) -> (r:
    FormatterSettings)
    ensures
        r.max_width == match args.max_width {
            Some(w) => w,
            None => match base {
                Some(s) => s.max_width,
                None => 100,
            },
        },
        r.tab_spaces == match args.tab_spaces {
            Some(t) => t,
            None => match base {
                Some(s) => s.tab_spaces,
                None => 4,
            },
        },
        r.indentation_style == match base {
            Some(s) => s.indentation_style,
            None => IndentationStyle::Auto,
        },
        r.newline_style == match base {
            Some(s) => s.newline_style,
            None => NewlineStyle::Auto,
        },
        r.attr_value_brace_style == match base {
            Some(s) => s.attr_value_brace_style,
            None => AttributeValueBraceStyle::WhenRequired,
        },
        r.closing_tag_style == match base {
            Some(s) => s.closing_tag_style,
            None => ClosingTagStyle::Preserve,
        },
        match args.override_macro_names {
            Some(names) => r.macro_names == names,
            None => match base {
                Some(s) => r.macro_names == s.macro_names,
                None => r.macro_names@.len() == 2 && r.macro_names@[0]@ == "leptos::view"@
                    && r.macro_names@[1]@ == "view"@,
            },
        },
        if args.experimental_tailwind {
            &&& r.attr_values@.len() == args.tailwind_attr_names@.len()
            &&& forall|k: int|
                0 <= k < r.attr_values@.len() ==> #[trigger] r.attr_values@[k].0
                    == args.tailwind_attr_names@[k] && r.attr_values@[k].1
                    == ExpressionFormatter::Tailwind
        } else {
            match base {
                Some(s) => r.attr_values == s.attr_values,
                None => r.attr_values@.len() == 0,
            }
        },
{
    let mut settings: FormatterSettings = match base {
        Some(s) => s,
        None => Default::default(),
    };
    match args.max_width {
        Some(w) => {
            settings.max_width = w;
        },
        None => {},
    }
    match args.tab_spaces {
        Some(t) => {
            settings.tab_spaces = t;
        },
        None => {},
    }
    match args.override_macro_names {
        Some(names) => {
            settings.macro_names = names;
        },
        None => {},
    }
    if args.experimental_tailwind {
        let mut pairs: Vec<(String, ExpressionFormatter)> = Vec::new();
        let names: Vec<String> = args.tailwind_attr_names;
        let n: usize = names.len();
        let mut i: usize = 0;
        while i < n
            invariant
                n == names@.len(),
                i <= n,
                pairs@.len() == i,
                forall|k: int|
                    0 <= k < i ==> #[trigger] pairs@[k].0 == names@[k] && pairs@[k].1
                        == ExpressionFormatter::Tailwind,
            decreases n - i,
        {
            let name: String = names[i].clone();
            proof {
                assert(name == names@[i as int]);
            }
            pairs.push((name, ExpressionFormatter::Tailwind));
            i = i + 1;
        }
        settings.attr_values = pairs;
    }
    settings
}

/// The indentation that precedes the formatted construct on its line: the
/// box the whole construct is printed in starts at this many columns.
#[derive(Clone, Copy, Debug, PartialEq, Eq, Structural)]
pub struct ParentIndent {
    pub tabs: usize,
    pub spaces: usize,
}

impl Default for ParentIndent {
    fn default() -> (r: ParentIndent)
        ensures
            r.tabs == 0,
            r.spaces == 0,
    {
        ParentIndent { tabs: 0, spaces: 0 }
    }
}

/// A source buffer: the text and its characters, views equal.
pub struct SourceText {
    pub text: String,
    pub chars: Vec<char>,
}

impl SourceText {
    /// The characters mirror the text.
    pub open spec fn wf(&self) -> bool {
        self.chars@ == self.text@
    }

    /// Wrap a source string.
    pub fn new(s: &str) -> (r: SourceText)
        ensures
            r.wf(),
            r.text@ == s@,
    {
        let chars = crate::span::str_chars(s);
        SourceText { text: String::from_str(s), chars }
    }
}

/// The tokens that flushing a run of drained gap-table values emits: each
/// comment becomes its own `// `-prefixed line, and a run of blank lines
/// becomes at most one hard break, kept only when output has begun.
pub open spec fn spec_flush_values(
    vals: Seq<Option<Seq<char>>>,
    allow_blanks: bool,
    prev_empty: bool,
) -> Seq<GTok>
    decreases vals.len(),
{
    if vals.len() == 0 {
        Seq::<GTok>::empty()
    } else {
        match vals[0] {
            Some(c) => seq![
                GTok::Text("// "@),
                GTok::Text(c),
                GTok::Brk { blank: HARD_BLANK as int, dedent: 0, never: false },
            ] + spec_flush_values(vals.drop_first(), allow_blanks, false),
            None => (if allow_blanks && !prev_empty {
                seq![GTok::Brk { blank: HARD_BLANK as int, dedent: 0, never: false }]
            } else {
                Seq::<GTok>::empty()
            }) + spec_flush_values(vals.drop_first(), allow_blanks, true),
        }
    }
}

/// Index just past the last comment in `[from, to)`, or `-1` when that range
/// holds only blank markers.
pub open spec fn spec_last_comment_end(t: Seq<GEntry>, from: int, to: int) -> int
    decreases to - from,
{
    if to <= from {
        -1
    } else if t[to - 1].comment is Some {
        to
    } else {
        spec_last_comment_end(t, from, to - 1)
    }
}

/// The gap-table values drained by a flush, in order.
pub open spec fn spec_drained_values(t: Seq<GEntry>, from: int, to: int) -> Seq<Option<Seq<char>>> {
    Seq::new((to - from) as nat, |k: int| t[from + k].comment)
}

/// The formatter: the printer the directives go to, the settings, the source
/// buffer (when formatting from source text), the table of recovered
/// comments and blank lines, and the line up to which they have been
/// flushed.
pub struct Formatter {
    pub printer: Printer,
    pub settings: FormatterSettings,
    pub source: Option<SourceText>,
    pub whitespace_and_comments: GapTable,
    pub line_offset: Option<usize>,
}

impl Formatter {
    /// The source buffer is consistent, the gap table well formed, and the
    /// printer's indent step is the configured one.
    pub open spec fn wf(&self) -> bool {
        &&& match &self.source {
            Some(st) => st.wf(),
            None => true,
        }
        &&& self.whitespace_and_comments.wf()
        &&& self.printer.cfg().tab_spaces == self.settings.tab_spaces
    }

    /// A formatter without source information.
    pub fn new(settings: FormatterSettings, printer: Printer) -> (r: Formatter)
        requires
            printer.cfg().tab_spaces == settings.tab_spaces,
        ensures
            r.wf(),
            r.printer == printer,
            r.settings == settings,
            r.source is None,
            r.whitespace_and_comments@.len() == 0,
            r.line_offset is None,
    {
        let t = GapTable::new();
        Formatter {
            printer,
            settings,
            source: None,
            whitespace_and_comments: t,
            line_offset: None,
        }
    }

    /// A formatter over a source buffer and its recovered comments.
    pub fn with_source(
        settings: FormatterSettings,
        printer: Printer,
        source: SourceText,
        comments: GapTable,
    ) -> (r: Formatter)
        requires
            printer.cfg().tab_spaces == settings.tab_spaces,
            source.wf(),
            comments.wf(),
        ensures
            r.wf(),
            r.printer == printer,
            r.settings == settings,
            r.source == Some(source),
            r.whitespace_and_comments == comments,
            r.line_offset is None,
    {
        Formatter {
            printer,
            settings,
            source: Some(source),
            whitespace_and_comments: comments,
            line_offset: None,
        }
    }

    /// Drop blank-line markers up to `line_index`, stopping at a comment:
    /// whitespace directly before the position being formatted is not kept.
    pub fn trim_whitespace(&mut self, line_index: usize) -> (u: ())
        requires
            old(self).wf(),
        ensures
            final(self).wf(),
            emits(*old(self), *final(self)),
            crate::printer::extends(old(self).printer@, final(self).printer@),
            crate::printer::seg_delta(final(self).printer@) == crate::printer::seg_delta(
                old(self).printer@,
            ),
            crate::printer::seg_min(final(self).printer@) == crate::printer::seg_min(
                old(self).printer@,
            ),
            final(self).printer == old(self).printer,
            final(self).settings == old(self).settings,
            final(self).source == old(self).source,
            final(self).line_offset == old(self).line_offset,
            final(self).whitespace_and_comments@ == old(self).whitespace_and_comments@,
            final(self).whitespace_and_comments.next == spec_skip_blanks(
                old(self).whitespace_and_comments@,
                old(self).whitespace_and_comments.next as int,
                line_index as int,
            ),
            walk_post(
                *old(self),
                *final(self),
                (
                    Seq::<GTok>::empty(),
                    spec_trim(
                        old(self).whitespace_and_comments@,
                        fstate_of(*old(self)),
                        line_index,
                    ),
                ),
            ),
    {
        self.whitespace_and_comments.trim_blanks(line_index);
        proof {
            assert(self.printer@.subrange(0, old(self).printer@.len() as int) =~= old(
                self,
            ).printer@);
            assert(self.printer@ =~= old(self).printer@ + Seq::<GTok>::empty());
        }
    }

    /// Flush every undrained gap-table entry up to `line_index`, in line
    /// order: comments as their own lines, runs of blank lines collapsed to
    /// one.  With `skip_trailing_whitespace`, blank lines after the last
    /// comment are dropped rather than emitted.  Afterwards the table's
    /// cursor stands past the flushed range and `line_offset` records the
    /// line.
    pub fn flush_comments(&mut self, line_index: usize, skip_trailing_whitespace: bool) -> (u: ())
        requires
            old(self).wf(),
        ensures
            final(self).wf(),
            emits(*old(self), *final(self)),
            crate::printer::extends(old(self).printer@, final(self).printer@),
            crate::printer::seg_delta(final(self).printer@) == crate::printer::seg_delta(
                old(self).printer@,
            ),
            crate::printer::seg_min(final(self).printer@) == crate::printer::seg_min(
                old(self).printer@,
            ),
            final(self).settings == old(self).settings,
            final(self).source == old(self).source,
            final(self).whitespace_and_comments@ == old(self).whitespace_and_comments@,
            final(self).printer.cfg() == old(self).printer.cfg(),
            walk_post(
                *old(self),
                *final(self),
                spec_flush(
                    old(self).whitespace_and_comments@,
                    fstate_of(*old(self)),
                    line_index,
                    skip_trailing_whitespace,
                ),
            ),
            ({
                let t = old(self).whitespace_and_comments@;
                let from = old(self).whitespace_and_comments.next as int;
                let end1 = spec_drain_end(t, from, line_index as int);
                let allow = old(self).line_offset is Some;
                let skip_all = match old(self).line_offset {
                    Some(lo) => lo > line_index,
                    None => false,
                };
                if skip_all {
                    *final(self) == *old(self)
                } else {
                    let le = spec_last_comment_end(t, from, end1);
                    let take_end = if skip_trailing_whitespace && le >= 0 {
                        le
                    } else {
                        end1
                    };
                    &&& final(self).whitespace_and_comments.next == end1
                    &&& final(self).line_offset == Some(line_index)
                    &&& final(self).printer@ == old(self).printer@ + spec_flush_values(
                        spec_drained_values(t, from, take_end),
                        allow,
                        false,
                    )
                }
            }),
    {
        let ghost t = self.whitespace_and_comments@;
        let allow: bool = self.line_offset.is_some();
        match self.line_offset {
            Some(lo) => {
                if lo > line_index {
                    proof {
                        assert(self.printer@.subrange(0, old(self).printer@.len() as int) =~= old(
                            self,
                        ).printer@);
                        assert(self.printer@ =~= old(self).printer@ + Seq::<GTok>::empty());
                    }
                    return ;
                }
            },
            None => {},
        }
        let from: usize = self.whitespace_and_comments.next;
        let end1: usize = self.whitespace_and_comments.drain_end(line_index);
        let take_end: usize = if skip_trailing_whitespace {
            let mut m: usize = end1;
            while m > from && matches!(self.whitespace_and_comments.entries[m - 1].comment, None)
                invariant
                    from <= m <= end1 <= self.whitespace_and_comments@.len(),
                    t == self.whitespace_and_comments@,
                    spec_last_comment_end(t, from as int, m as int) == spec_last_comment_end(
                        t,
                        from as int,
                        end1 as int,
                    ),
                decreases m,
            {
                m = m - 1;
            }
            proof {
                if m == from {
                    assert(spec_last_comment_end(t, from as int, m as int) == -1);
                }
            }
            if m == from {
                end1
            } else {
                m
            }
        } else {
            end1
        };
        let ghost base = self.printer@;
        proof {
            crate::printer::lemma_seg_min_le_delta(base);
        }
        let ghost vals = spec_drained_values(t, from as int, take_end as int);
        let mut k: usize = from;
        let mut prev_empty: bool = false;
        proof {
            assert(vals.skip(0) =~= vals);
        }
        while k < take_end
            invariant
                from <= k <= take_end <= self.whitespace_and_comments@.len(),
                t == self.whitespace_and_comments@,
                self.whitespace_and_comments.wf(),
                self.whitespace_and_comments.next == old(self).whitespace_and_comments.next,
                self.whitespace_and_comments.entries@ == old(
                    self,
                ).whitespace_and_comments.entries@,
                self.settings == old(self).settings,
                self.source == old(self).source,
                self.line_offset == old(self).line_offset,
                self.printer.cfg() == old(self).printer.cfg(),
                vals == spec_drained_values(t, from as int, take_end as int),
                crate::printer::seg_delta(self.printer@) == crate::printer::seg_delta(base),
                crate::printer::seg_min(self.printer@) == crate::printer::seg_min(base),
                crate::printer::seg_min(base) <= crate::printer::seg_delta(base),
                self.printer@ + spec_flush_values(vals.skip(k - from), allow, prev_empty) == base
                    + spec_flush_values(vals, allow, false),
            decreases take_end - k,
        {
            let ghost rest = vals.skip(k - from);
            proof {
                assert(rest[0] == t[k as int].comment);
                assert(rest.drop_first() =~= vals.skip(k + 1 - from));
            }
            let is_comment = matches!(self.whitespace_and_comments.entries[k].comment, Some(_));
            if is_comment {
                self.printer.word("// ");
                match &self.whitespace_and_comments.entries[k].comment {
                    Some(c) => {
                        self.printer.word(c.as_str());
                    },
                    None => {},
                }
                self.printer.hardbreak();
                prev_empty = false;
            } else {
                if allow && !prev_empty {
                    self.printer.hardbreak();
                }
                prev_empty = true;
            }
            k = k + 1;
        }
        proof {
            assert(vals.skip(take_end - from).len() == 0);
            assert(spec_flush_values(vals.skip(take_end - from), allow, prev_empty)
                =~= Seq::<GTok>::empty());
            assert(self.printer@ =~= base + spec_flush_values(vals, allow, false));
            lemma_prefix_concat(base, spec_flush_values(vals, allow, false));
        }
        self.whitespace_and_comments.next = end1;
        self.line_offset = Some(line_index);
    }
}

/// What every formatting step preserves: the settings, the source, the
/// printer configuration and everything already printed; the gap table's
/// entries stay and its cursor only advances.
pub open spec fn emits(pre: Formatter, post: Formatter) -> bool {
    &&& post.settings == pre.settings
    &&& post.source == pre.source
    &&& post.printer.cfg() == pre.printer.cfg()
    &&& pre.printer@.is_prefix_of(post.printer@)
    &&& post.whitespace_and_comments.entries@ == pre.whitespace_and_comments.entries@
    &&& pre.whitespace_and_comments.next <= post.whitespace_and_comments.next
}

/// What every formatting step leaves untouched: the settings, the source,
/// and the printer configuration.
pub open spec fn preserves(pre: Formatter, post: Formatter) -> bool {
    &&& post.settings == pre.settings
    &&& post.source == pre.source
    &&& post.printer.cfg() == pre.printer.cfg()
}

/// A sequence is a prefix of itself extended.
pub proof fn lemma_prefix_concat(a: Seq<GTok>, b: Seq<GTok>)
    ensures
        a.is_prefix_of(a + b),
{
    assert((a + b).subrange(0, a.len() as int) =~= a);
}

/// The comment texts among a run of drained gap-table values, in order.
pub open spec fn spec_comment_texts(vals: Seq<Option<Seq<char>>>) -> Seq<Seq<char>>
    decreases vals.len(),
{
    if vals.len() == 0 {
        Seq::<Seq<char>>::empty()
    } else {
        match vals[0] {
            Some(c) => seq![c] + spec_comment_texts(vals.drop_first()),
            None => spec_comment_texts(vals.drop_first()),
        }
    }
}

/// The comment lines a flushed token run carries: the text directly after
/// each `// ` marker.
pub open spec fn spec_comment_lines(toks: Seq<GTok>) -> Seq<Seq<char>>
    decreases toks.len(),
{
    if toks.len() == 0 {
        Seq::<Seq<char>>::empty()
    } else if toks.len() >= 2 && toks[0] == GTok::Text("// "@) {
        (seq![
            match toks[1] {
                GTok::Text(c) => c,
                _ => Seq::<char>::empty(),
            },
        ]) + spec_comment_lines(toks.skip(2))
    } else {
        spec_comment_lines(toks.skip(1))
    }
}

/// Comment conservation: flushing emits every drained comment exactly once,
/// in original order — the comment lines of the emitted tokens are exactly
/// the comment texts of the drained values.
pub proof fn lemma_flush_emits_comments_once(
    vals: Seq<Option<Seq<char>>>,
    allow_blanks: bool,
    prev_empty: bool,
)
    ensures
        spec_comment_lines(spec_flush_values(vals, allow_blanks, prev_empty))
            == spec_comment_texts(vals),
    decreases vals.len(),
{
    if vals.len() > 0 {
        lemma_flush_emits_comments_once(vals.drop_first(), allow_blanks, false);
        lemma_flush_emits_comments_once(vals.drop_first(), allow_blanks, true);
        let rest = spec_flush_values(vals.drop_first(), allow_blanks, false);
        let rest_b = spec_flush_values(vals.drop_first(), allow_blanks, true);
        match vals[0] {
            Some(c) => {
                let head = seq![
                    GTok::Text("// "@),
                    GTok::Text(c),
                    GTok::Brk { blank: HARD_BLANK as int, dedent: 0, never: false },
                ];
                assert((head + rest).skip(2) =~= seq![
                    GTok::Brk { blank: HARD_BLANK as int, dedent: 0, never: false },
                ] + rest);
                assert((seq![
                    GTok::Brk { blank: HARD_BLANK as int, dedent: 0, never: false },
                ] + rest).skip(1) =~= rest);
                assert(spec_comment_lines(
                    seq![GTok::Brk { blank: HARD_BLANK as int, dedent: 0, never: false }] + rest,
                ) == spec_comment_lines(rest));
                assert((head + rest)[0] == GTok::Text("// "@));
                assert((head + rest)[1] == GTok::Text(c));
                assert(spec_comment_lines(head + rest) =~= seq![c] + spec_comment_lines(rest));
            },
            None => {
                if allow_blanks && !prev_empty {
                    let head = seq![
                        GTok::Brk { blank: HARD_BLANK as int, dedent: 0, never: false },
                    ];
                    assert((head + rest_b).skip(1) =~= rest_b);
                    assert(spec_comment_lines(head + rest_b) =~= spec_comment_lines(rest_b));
                } else {
                    assert(Seq::<GTok>::empty() + rest_b =~= rest_b);
                }
            },
        }
    }
}

/// Blank-line collapsing: a drained run that holds only blank-line markers
/// flushes to at most one break, and to none at all when output has not
/// begun.
pub proof fn lemma_blank_run_collapses(
    vals: Seq<Option<Seq<char>>>,
    allow_blanks: bool,
    prev_empty: bool,
)
    requires
        forall|k: int| 0 <= k < vals.len() ==> (#[trigger] vals[k]) is None,
    ensures
        spec_flush_values(vals, allow_blanks, prev_empty).len() <= if allow_blanks && !prev_empty {
            1int
        } else {
            0int
        },
    decreases vals.len(),
{
    if vals.len() > 0 {
        assert(vals[0] is None);
        assert(forall|k: int|
            0 <= k < vals.drop_first().len() ==> (#[trigger] vals.drop_first()[k]) is None);
        lemma_blank_run_collapses(vals.drop_first(), allow_blanks, true);
    }
}

/// The plain values of the settings that the tree walk reads: the indent
/// step, the two policies, and the alternate-formatter table by name.
pub ghost struct GSettings {
    pub tab_spaces: int,
    pub brace_style: AttributeValueBraceStyle,
    pub closing_style: ClosingTagStyle,
    pub attr_values: Seq<(Seq<char>, ExpressionFormatter)>,
}

/// The walk-relevant value of a settings record.
pub open spec fn settings_view(s: FormatterSettings) -> GSettings {
    GSettings {
        tab_spaces: s.tab_spaces as int,
        brace_style: s.attr_value_brace_style,
        closing_style: s.closing_tag_style,
        attr_values: Seq::new(s.attr_values@.len(), |i: int| (s.attr_values@[i].0@, s.attr_values@[i].1)),
    }
}

/// The alternate formatter for an attribute name: the first pair naming it.
pub open spec fn spec_attr_lookup(
    pairs: Seq<(Seq<char>, ExpressionFormatter)>,
    name: Seq<char>,
) -> Option<ExpressionFormatter>
    decreases pairs.len(),
{
    if pairs.len() == 0 {
        None
    } else if pairs[0].0 == name {
        Some(pairs[0].1)
    } else {
        spec_attr_lookup(pairs.drop_first(), name)
    }
}

impl FormatterSettings {
    /// A copy whose strings hold the same characters: the walk and the
    /// printer configuration cannot tell the two apart.
    pub fn duplicate(&self) -> (r: FormatterSettings)
        ensures
            r.max_width == self.max_width,
            r.tab_spaces == self.tab_spaces,
            r.indentation_style == self.indentation_style,
            r.newline_style == self.newline_style,
            r.attr_value_brace_style == self.attr_value_brace_style,
            r.closing_tag_style == self.closing_tag_style,
            r.macro_names@.len() == self.macro_names@.len(),
            forall|i: int|
                0 <= i < self.macro_names@.len() ==> #[trigger] r.macro_names@[i]@
                    == self.macro_names@[i]@,
            settings_view(r) == settings_view(*self),
    {
        let mut names: Vec<String> = Vec::new();
        let n: usize = self.macro_names.len();
        let mut i: usize = 0;
        while i < n
            invariant
                i <= n,
                n == self.macro_names@.len(),
                names@.len() == i,
                forall|k: int|
                    0 <= k < i ==> #[trigger] names@[k]@ == self.macro_names@[k]@,
            decreases n - i,
        {
            names.push(String::from_str(self.macro_names[i].as_str()));
            i = i + 1;
        }
        let mut pairs: Vec<(String, ExpressionFormatter)> = Vec::new();
        let m: usize = self.attr_values.len();
        let mut j: usize = 0;
        while j < m
            invariant
                j <= m,
                m == self.attr_values@.len(),
                pairs@.len() == j,
                forall|k: int|
                    0 <= k < j ==> #[trigger] pairs@[k].0@ == self.attr_values@[k].0@
                        && pairs@[k].1 == self.attr_values@[k].1,
            decreases m - j,
        {
            pairs.push((String::from_str(self.attr_values[j].0.as_str()), self.attr_values[j].1));
            j = j + 1;
        }
        let r = FormatterSettings {
            max_width: self.max_width,
            tab_spaces: self.tab_spaces,
            indentation_style: self.indentation_style,
            newline_style: self.newline_style,
            attr_value_brace_style: self.attr_value_brace_style,
            closing_tag_style: self.closing_tag_style,
            macro_names: names,
            attr_values: pairs,
        };
        proof {
            assert(settings_view(r).attr_values =~= settings_view(*self).attr_values);
        }
        r
    }
}

/// What the gap table and flush cursor look like to the tree walk: how far
/// the table is drained, and the line up to which flushing has happened.
pub ghost struct FState {
    pub next: int,
    pub line_offset: Option<usize>,
}

/// The walk state a formatter currently holds.
pub open spec fn fstate_of(f: Formatter) -> FState {
    FState { next: f.whitespace_and_comments.next as int, line_offset: f.line_offset }
}

/// What `flush_comments` emits and how it moves the state.
pub open spec fn spec_flush(
    t: Seq<GEntry>,
    st: FState,
    line_index: usize,
    skip_trailing: bool,
) -> (Seq<GTok>, FState) {
    let skip_all = match st.line_offset {
        Some(lo) => lo > line_index,
        None => false,
    };
    if skip_all {
        (Seq::<GTok>::empty(), st)
    } else {
        let end1 = spec_drain_end(t, st.next, line_index as int);
        let le = spec_last_comment_end(t, st.next, end1);
        let take_end = if skip_trailing && le >= 0 {
            le
        } else {
            end1
        };
        (
            spec_flush_values(
                spec_drained_values(t, st.next, take_end),
                st.line_offset is Some,
                false,
            ),
            FState { next: end1, line_offset: Some(line_index) },
        )
    }
}

/// How `trim_whitespace` moves the state; it emits nothing.
pub open spec fn spec_trim(t: Seq<GEntry>, st: FState, line_index: usize) -> FState {
    FState {
        next: crate::collect_comments::spec_skip_blanks(t, st.next, line_index as int),
        line_offset: st.line_offset,
    }
}

/// A walk step emitted `out.0` and left the state at `out.1`: the printer
/// grew by exactly those directives, the table's entries are untouched, and
/// the cursor and flushed line stand where the step's specification says.
pub open spec fn walk_post(pre: Formatter, post: Formatter, out: (Seq<GTok>, FState)) -> bool {
    &&& post.printer@ == pre.printer@ + out.0
    &&& post.whitespace_and_comments.entries@ == pre.whitespace_and_comments.entries@
    &&& post.whitespace_and_comments.next as int == out.1.next
    &&& post.line_offset == out.1.line_offset
}

/// The source text a formatter reads verbatim spans from, if any.
pub open spec fn source_view(f: Formatter) -> Option<Seq<char>> {
    match f.source {
        Some(st) => Some(st.text@),
        None => None,
    }
}

/// A nonempty flush ends with a hard break: every emitted comment and every
/// kept blank marker closes its line.
pub proof fn lemma_flush_values_last(
    vals: Seq<Option<Seq<char>>>,
    allow_blanks: bool,
    prev_empty: bool,
)
    ensures
        spec_flush_values(vals, allow_blanks, prev_empty).len() > 0 ==> spec_flush_values(
            vals,
            allow_blanks,
            prev_empty,
        ).last() == (GTok::Brk { blank: HARD_BLANK as int, dedent: 0, never: false }),
    decreases vals.len(),
{
    if vals.len() > 0 {
        lemma_flush_values_last(vals.drop_first(), allow_blanks, false);
        lemma_flush_values_last(vals.drop_first(), allow_blanks, true);
    }
}

/// Counting tabs over a range grown by one character on the right.
proof fn lemma_count_tabs_snoc(text: Seq<char>, s: int, e: int)
    requires
        0 <= s <= e < text.len(),
    ensures
        crate::span::spec_count_tabs(text, s, e + 1) == crate::span::spec_count_tabs(text, s, e)
            + (if text[e] == '\t' {
            1int
        } else {
            0
        }),
    decreases e - s,
{
    if s < e {
        lemma_count_tabs_snoc(text, s + 1, e);
        assert(crate::span::spec_count_tabs(text, s, e + 1) == (if text[s] == '\t' {
            1int
        } else {
            0
        }) + crate::span::spec_count_tabs(text, s + 1, e + 1));
        assert(crate::span::spec_count_tabs(text, s, e) == (if text[s] == '\t' {
            1int
        } else {
            0
        }) + crate::span::spec_count_tabs(text, s + 1, e));
    } else {
        assert(crate::span::spec_count_tabs(text, e + 1, e + 1) == 0);
        assert(crate::span::spec_count_tabs(text, e, e) == 0);
        assert(crate::span::spec_count_tabs(text, e, e + 1) == (if text[e] == '\t' {
            1int
        } else {
            0
        }) + crate::span::spec_count_tabs(text, e + 1, e + 1));
    }
}

/// The indentation of the 1-indexed `line`: how many tabs and spaces its
/// leading whitespace run holds.  The construct's outer box starts at the
/// columns this indentation spans.
pub fn leading_indent(text: &Vec<char>, line: usize) -> (r: ParentIndent)
    ensures
        ({
            let s = crate::span::spec_line_start(text@, line as int);
            let e = crate::span::spec_indent_end(text@, s);
            &&& r.tabs == crate::span::spec_count_tabs(text@, s, e)
            &&& r.tabs + r.spaces == e - s
        }),
{
    let s: usize = crate::span::line_start_char(text, line);
    let mut j: usize = s;
    let mut tabs: usize = 0;
    while j < text.len() && (text[j] == '\t' || text[j] == ' ')
        invariant
            s <= j <= text@.len(),
            crate::span::spec_indent_end(text@, s as int) == crate::span::spec_indent_end(
                text@,
                j as int,
            ),
            tabs == crate::span::spec_count_tabs(text@, s as int, j as int),
            tabs <= j - s,
        decreases text@.len() - j,
    {
        proof {
            lemma_count_tabs_snoc(text@, s as int, j as int);
        }
        if text[j] == '\t' {
            tabs = tabs + 1;
        }
        j = j + 1;
    }
    ParentIndent { tabs, spaces: j - s - tabs }
}

/// The segments of a macro's path, joined by `::`.
pub open spec fn spec_joined_path(segments: Seq<String>) -> Seq<char>
    decreases segments.len(),
{
    if segments.len() == 0 {
        Seq::<char>::empty()
    } else if segments.len() == 1 {
        segments.first()@
    } else {
        segments.first()@ + "::"@ + spec_joined_path(segments.drop_first())
    }
}

/// The full path of a macro invocation, its segment names joined by `::`.
pub fn get_macro_full_path(segments: &Vec<String>) -> (r: String)
    ensures
        r@ == spec_joined_path(segments@),
{
    let mut out: String = String::new();
    let n: usize = segments.len();
    let mut i: usize = 0;
    proof {
        assert(segments@.skip(0) =~= segments@);
        assert(out@ + spec_joined_path(segments@) =~= spec_joined_path(segments@));
    }
    while i < n
        invariant
            i <= n,
            n == segments@.len(),
            out@ + spec_joined_path(segments@.skip(i as int)) == spec_joined_path(segments@),
        decreases n - i,
    {
        let ghost rest = segments@.skip(i as int);
        proof {
            assert(rest.first() == segments@[i as int]);
            assert(rest.drop_first() =~= segments@.skip(i as int + 1));
        }
        out.append(segments[i].as_str());
        if i + 1 < n {
            out.append("::");
        }
        proof {
            assert(out@ + spec_joined_path(segments@.skip(i as int + 1)) =~= spec_joined_path(
                segments@,
            ));
        }
        i = i + 1;
    }
    proof {
        assert(segments@.skip(n as int) =~= Seq::<String>::empty());
        assert(out@ =~= spec_joined_path(segments@));
    }
    out
}

} // verus!
