// Unit and property tests over the library's own pieces: the printer's
// width behavior, the patch applier's locality, position conversion, and
// the documented scenarios.

use viewfmt::formatter::{
    create_settings, FormatterSettings, SettingsOverrides, ExpressionFormatter,
};
use viewfmt::printer::{Printer, PrinterSettings};
use viewfmt::source_file::{apply_edits, TextEdit};
use viewfmt::collect_comments::extract_whitespace_and_comments;
use viewfmt::formatter::mac::{split_macro_args, MacroToken};
use viewfmt::span::{line_column_to_byte, str_chars, LineCol, Span};

fn ps(margin: usize) -> PrinterSettings {
    PrinterSettings {
        margin,
        tab_spaces: 4,
        min_space: 60,
        crlf_line_endings: false,
        hard_tabs: false,
    }
}

// A consistent box whose flattened content fits renders on one line.
#[test]
fn consistent_box_fits_one_line() {
    let mut p = Printer::new(ps(40));
    p.cbox(4);
    p.word("alpha");
    p.space();
    p.word("beta");
    p.space();
    p.word("gamma");
    p.end();
    assert_eq!(p.eof(), "alpha beta gamma");
}

// The same box under a margin too small for its flattened content breaks at
// every direct break.
#[test]
fn consistent_box_overflow_breaks_every_break() {
    let mut p = Printer::new(ps(10));
    p.cbox(4);
    p.word("alpha");
    p.space();
    p.word("beta");
    p.space();
    p.word("gamma");
    p.end();
    assert_eq!(p.eof(), "alpha\n    beta\n    gamma");
}

// An inconsistent (fill) box breaks only where the next piece would not fit.
#[test]
fn fill_box_breaks_only_when_needed() {
    let mut p = Printer::new(PrinterSettings {
        margin: 12,
        tab_spaces: 2,
        min_space: 10,
        crlf_line_endings: false,
        hard_tabs: false,
    });
    p.ibox(2);
    p.word("aaaa");
    p.space();
    p.word("bbbb");
    p.space();
    p.word("cccc");
    p.end();
    assert_eq!(p.eof(), "aaaa bbbb\n  cccc");
}

// A never-breaking blank stays a blank even when the box breaks.
#[test]
fn nbsp_never_becomes_newline() {
    let mut p = Printer::new(ps(3));
    p.cbox(0);
    p.word("aaaa");
    p.nbsp();
    p.word("bbbb");
    p.end();
    assert_eq!(p.eof(), "aaaa bbbb");
}

// A hard break becomes a newline even where everything would fit.
#[test]
fn hardbreak_always_breaks() {
    let mut p = Printer::new(ps(100));
    p.cbox(4);
    p.word("a");
    p.hardbreak();
    p.word("b");
    p.end();
    assert_eq!(p.eof(), "a\n    b");
}

// The closing delimiter's break renders one step shallower.
#[test]
fn end_dedent_aligns_closing_delimiter() {
    let mut p = Printer::new(ps(5));
    p.cbox(0);
    p.word("<x");
    p.cbox(4);
    p.space();
    p.word("attr=1");
    p.zerobreak();
    p.end_dedent();
    p.word(">");
    p.end();
    assert_eq!(p.eof(), "<x\n    attr=1\n>");
}

// Carriage-return line endings and hard tabs are honored.
#[test]
fn crlf_and_tabs_render() {
    let mut p = Printer::new(PrinterSettings {
        margin: 4,
        tab_spaces: 4,
        min_space: 2,
        crlf_line_endings: true,
        hard_tabs: true,
    });
    p.cbox(4);
    p.word("aaaaa");
    p.space();
    p.word("b");
    p.end();
    assert_eq!(p.eof(), "aaaaa\r\n\tb");
}

#[test]
fn balance_check_reports_unclosed_box() {
    let mut p = Printer::new(ps(40));
    p.cbox(0);
    p.word("a");
    assert!(!p.is_balanced());
    p.end();
    assert!(p.is_balanced());
}

// Applying zero edits returns the text unchanged.
#[test]
fn apply_no_edits_is_identity() {
    let edits: Vec<TextEdit> = Vec::new();
    assert_eq!(apply_edits("fn main() {}\n", &edits).unwrap(), "fn main() {}\n");
}

// Characters outside the edited ranges stay, shifted only by the size
// difference of the replacements.
#[test]
fn apply_edits_keeps_surroundings() {
    let edits = vec![
        TextEdit { start: 5, end: 8, new_text: String::from("formatted") },
        TextEdit { start: 14, end: 15, new_text: String::from("") },
    ];
    assert_eq!(
        apply_edits("pre [old] mid x post", &edits).unwrap(),
        "pre [formatted] mid  post"
    );
}

// Edits out of order or out of bounds are refused rather than misapplied.
#[test]
fn apply_edits_rejects_bad_ranges() {
    let overlapping = vec![
        TextEdit { start: 0, end: 5, new_text: String::new() },
        TextEdit { start: 3, end: 7, new_text: String::new() },
    ];
    assert!(apply_edits("0123456789", &overlapping).is_none());
    let out_of_bounds = vec![TextEdit { start: 0, end: 99, new_text: String::new() }];
    assert!(apply_edits("short", &out_of_bounds).is_none());
    let reversed = vec![TextEdit { start: 5, end: 2, new_text: String::new() }];
    assert!(apply_edits("0123456789", &reversed).is_none());
}

// Offsets count scalar values; byte offsets count UTF-8 lengths.
#[test]
fn byte_offsets_track_multibyte_characters() {
    let text = str_chars("a\u{00e9}\u{1f980}z\nxy");
    // line 1: 'a' (1 byte), 'é' (2 bytes), crab (4 bytes), 'z' (1 byte)
    assert_eq!(line_column_to_byte(&text, LineCol { line: 1, column: 0 }), 0);
    assert_eq!(line_column_to_byte(&text, LineCol { line: 1, column: 2 }), 3);
    assert_eq!(line_column_to_byte(&text, LineCol { line: 1, column: 3 }), 7);
    assert_eq!(line_column_to_byte(&text, LineCol { line: 2, column: 1 }), 10);
}

#[test]
fn trim_start_with_max_respects_limit() {
    assert_eq!(viewfmt::formatter::expr::trim_start_with_max("      foo", 4), "  foo");
    assert_eq!(viewfmt::formatter::expr::trim_start_with_max("  foo", 4), "foo");
    assert_eq!(viewfmt::formatter::expr::trim_start_with_max("foo", 4), "foo");
}

#[test]
fn void_elements_are_recognized() {
    assert!(viewfmt::formatter::element::is_void_element("input"));
    assert!(viewfmt::formatter::element::is_void_element("br"));
    assert!(!viewfmt::formatter::element::is_void_element("div"));
    assert!(!viewfmt::formatter::element::is_void_element(""));
}

#[test]
fn settings_merge_applies_overrides() {
    let merged = create_settings(
        None,
        SettingsOverrides {
            max_width: Some(80),
            tab_spaces: None,
            override_macro_names: Some(vec![String::from("html")]),
            experimental_tailwind: true,
            tailwind_attr_names: vec![String::from("class")],
        },
    );
    assert_eq!(merged.max_width, 80);
    assert_eq!(merged.tab_spaces, 4);
    assert_eq!(merged.macro_names, vec![String::from("html")]);
    assert_eq!(merged.attr_values.len(), 1);
    assert_eq!(merged.attr_values[0].0, "class");
    assert!(matches!(merged.attr_values[0].1, ExpressionFormatter::Tailwind));
}

#[test]
fn printer_settings_detect_source_styles() {
    let s = FormatterSettings::default();
    let crlf_source = str_chars("fn a() {}\r\nmore\n");
    let detected = s.to_printer_settings(Some(&crlf_source));
    assert!(detected.crlf_line_endings);
    assert!(!detected.hard_tabs);
    let tab_source = str_chars("fn a() {\n\tbody\n}\n");
    let detected = s.to_printer_settings(Some(&tab_source));
    assert!(detected.hard_tabs);
    assert!(!detected.crlf_line_endings);
    assert_eq!(detected.margin, 100);
    assert_eq!(detected.min_space, 60);
}

// The reconciler records comments and blank lines per gap line, in order.
#[test]
fn gap_extraction_records_comments_and_blanks() {
    let source = "foo\n// first\n\n// second\nbar";
    let chars = str_chars(source);
    // two tokens: `foo` on line 1 and `bar` on line 5
    let spans = vec![
        Span { start: LineCol { line: 1, column: 0 }, end: LineCol { line: 1, column: 3 } },
        Span { start: LineCol { line: 5, column: 0 }, end: LineCol { line: 5, column: 3 } },
    ];
    let table = extract_whitespace_and_comments(source, &chars, &spans);
    let entries: Vec<(usize, Option<String>)> = table
        .entries
        .iter()
        .map(|e| (e.line, e.comment.clone()))
        .collect();
    assert_eq!(
        entries,
        vec![
            (1, Some(String::from("first"))),
            (2, None),
            (3, Some(String::from("second"))),
        ]
    );
}

// The verified splitter recognizes the optional context and global class.
#[test]
fn macro_args_prelude_detection() {
    let toks = vec![
        MacroToken::Ident(String::from("cx")),
        MacroToken::Punct(','),
        MacroToken::Ident(String::from("class")),
        MacroToken::Punct('='),
        MacroToken::Ident(String::from("STYLE")),
        MacroToken::Punct(','),
    ];
    let p = split_macro_args(&toks).unwrap();
    assert_eq!(p.cx.as_deref(), Some("cx"));
    assert_eq!(p.global_class.as_deref(), Some("STYLE"));
    assert_eq!(p.consumed, 6);

    let toks = vec![MacroToken::Ident(String::from("div"))];
    let p = split_macro_args(&toks).unwrap();
    assert!(p.cx.is_none());
    assert!(p.global_class.is_none());
    assert_eq!(p.consumed, 0);

    // `class =` without a trailing comma is not the construct's grammar
    let toks = vec![
        MacroToken::Ident(String::from("class")),
        MacroToken::Punct('='),
        MacroToken::Ident(String::from("STYLE")),
    ];
    assert!(split_macro_args(&toks).is_none());
}
