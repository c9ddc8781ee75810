// Ported formatting tests: each parses a snippet with the real grammar
// parser, converts the tree to the library's markup model, and formats it.

use std::str::FromStr;

use quote::ToTokens as _;
use syn::spanned::Spanned as _;

use proc_macro2::{LineColumn, Span as PSpan, TokenStream, TokenTree};
use viewfmt::collect_comments::{extract_whitespace_and_comments, GapTable};
use viewfmt::formatter::mac::{format_macro, split_macro_args, MacroToken, ViewMacro};
use viewfmt::formatter::{
    AttributeValueBraceStyle, ClosingTagStyle, Formatter, FormatterSettings, ParentIndent,
    SourceText,
};
use viewfmt::markup::{AttrValue, Attribute, Element, Expr, ExprKind, Fragment, KeyedAttribute, Node, TagName};
use viewfmt::printer::Printer;
use viewfmt::span::{str_chars, text_between, LineCol, Span};

fn lc(p: LineColumn) -> LineCol {
    LineCol { line: p.line, column: p.column }
}

fn sp(s: PSpan) -> Span {
    Span { start: lc(s.start()), end: lc(s.end()) }
}

fn slice(src: &str, chars: &Vec<char>, s: PSpan) -> String {
    text_between(src, chars, lc(s.start()), lc(s.end()))
}

fn conv_expr(e: &syn::Expr, src: &str, chars: &Vec<char>) -> Expr {
    let span = sp(e.span());
    let text = slice(src, chars, e.span());
    let kind = match e {
        syn::Expr::Lit(el) => match &el.lit {
            syn::Lit::Str(s) => ExprKind::StrLit(s.value()),
            _ => ExprKind::Lit,
        },
        syn::Expr::Block(eb) if eb.attrs.is_empty() => ExprKind::Braced(conv_block_single(&eb.block, src, chars)),
        _ => ExprKind::Other,
    };
    Expr { text, span, kind }
}

fn conv_block_single(b: &syn::Block, src: &str, chars: &Vec<char>) -> Option<Box<Expr>> {
    if b.stmts.len() == 1 {
        if let syn::Stmt::Expr(single, None) = &b.stmts[0] {
            return Some(Box::new(conv_expr(single, src, chars)));
        }
    }
    None
}

fn conv_syn_block(b: &syn::Block, src: &str, chars: &Vec<char>) -> Expr {
    let span = sp(b.span());
    let text = slice(src, chars, b.span());
    Expr { text, span, kind: ExprKind::Braced(conv_block_single(b, src, chars)) }
}

fn conv_node_block(b: &rstml::node::NodeBlock, src: &str, chars: &Vec<char>) -> Expr {
    match b {
        rstml::node::NodeBlock::ValidBlock(block) => conv_syn_block(block, src, chars),
        rstml::node::NodeBlock::Invalid(_) => panic!("invalid block"),
    }
}

fn is_spread(attr: &rstml::node::NodeAttribute) -> bool {
    if let rstml::node::NodeAttribute::Block(rstml::node::NodeBlock::ValidBlock(block)) = attr {
        if block.stmts.len() == 1 {
            if let syn::Stmt::Expr(
                syn::Expr::Range(syn::ExprRange {
                    start: None,
                    limits: syn::RangeLimits::HalfOpen(..),
                    end,
                    ..
                }),
                None,
            ) = &block.stmts[0]
            {
                return matches!(end.as_deref(), None | Some(syn::Expr::Path(_)));
            }
        }
    }
    false
}

fn conv_name(name: &rstml::node::NodeName, src: &str, chars: &Vec<char>) -> TagName {
    match name {
        rstml::node::NodeName::Block(b) => TagName::Block(conv_syn_block(b, src, chars)),
        other => TagName::Ident(other.to_string()),
    }
}

fn conv_attr(a: &rstml::node::NodeAttribute, src: &str, chars: &Vec<char>) -> Attribute {
    match a {
        rstml::node::NodeAttribute::Block(b) => Attribute::Block {
            expr: conv_node_block(b, src, chars),
            spread: is_spread(a),
            span: sp(a.span()),
        },
        rstml::node::NodeAttribute::Attribute(k) => {
            let value = match &k.possible_value {
                rstml::node::KeyedAttributeValue::None => AttrValue::Empty,
                rstml::node::KeyedAttributeValue::Binding(binding) => AttrValue::Binding(
                    binding
                        .inputs
                        .iter()
                        .map(|pat| slice(src, chars, pat.span()))
                        .collect(),
                ),
                rstml::node::KeyedAttributeValue::Value(v) => match &v.value {
                    rstml::node::KVAttributeValue::Expr(e) => {
                        AttrValue::Value(conv_expr(e, src, chars))
                    }
                    rstml::node::KVAttributeValue::InvalidBraced(_) => {
                        panic!("invalid braced attribute value")
                    }
                },
            };
            Attribute::Keyed(KeyedAttribute {
                name: k.key.to_string(),
                span: sp(k.span()),
                value,
            })
        }
    }
}

fn conv_element(e: &rstml::node::NodeElement<rstml::Infallible>, src: &str, chars: &Vec<char>) -> Element {
    let generics = if e.open_tag.generics.lt_token.is_some() {
        Some(slice(src, chars, e.open_tag.generics.span()))
    } else {
        None
    };
    Element {
        name: conv_name(&e.open_tag.name, src, chars),
        generics,
        attributes: e.attributes().iter().map(|a| conv_attr(a, src, chars)).collect(),
        children: e.children.iter().map(|c| conv_node(c, src, chars)).collect(),
        self_closed: e.close_tag.is_none(),
        close_span: e.close_tag.as_ref().map(|c| sp(c.span())),
        span: sp(e.span()),
    }
}

fn conv_node(n: &rstml::node::Node<rstml::Infallible>, src: &str, chars: &Vec<char>) -> Node {
    match n {
        rstml::node::Node::Element(e) => Node::Element(conv_element(e, src, chars)),
        rstml::node::Node::Fragment(f) => Node::Fragment(Fragment {
            children: f.children.iter().map(|c| conv_node(c, src, chars)).collect(),
            close_span: f
                .tag_close
                .as_ref()
                .map(|c| sp(c.span()))
                .unwrap_or(sp(f.span())),
            span: sp(f.span()),
        }),
        rstml::node::Node::Text(t) => Node::Text { value: t.value.value(), span: sp(t.value.span()) },
        rstml::node::Node::RawText(r) => {
            let span = r.join_spans().map(sp).unwrap_or(sp(n.span()));
            let text = match r.join_spans() {
                Some(s) => slice(src, chars, s),
                None => r
                    .to_source_text(false)
                    .unwrap_or_else(|| r.to_token_stream_string()),
            };
            Node::RawText { text, span }
        }
        rstml::node::Node::Block(b) => Node::Block(conv_node_block(b, src, chars)),
        rstml::node::Node::Comment(c) => Node::Comment {
            value: c.value.value(),
            value_span: sp(c.value.span()),
            span: sp(c.span()),
        },
        rstml::node::Node::Doctype(d) => {
            let value_span = d.value.join_spans().map(sp).unwrap_or(sp(n.span()));
            Node::Doctype {
                value: d.value.to_token_stream_string(),
                value_col: value_span.start.column,
                span: sp(n.span()),
            }
        }
        rstml::node::Node::Custom(_) => panic!("custom node"),
    }
}

fn parse_nodes(src: &str) -> Vec<Node> {
    let tokens = TokenStream::from_str(src).expect("tokenize");
    let nodes = rstml::parse2(tokens).expect("parse markup");
    let chars = str_chars(src);
    nodes.iter().map(|n| conv_node(n, src, &chars)).collect()
}

fn token_spans(tokens: TokenStream, out: &mut Vec<Span>) {
    for token in tokens {
        match token {
            TokenTree::Group(group) => {
                out.push(sp(group.span_open()));
                token_spans(group.stream(), out);
                out.push(sp(group.span_close()));
            }
            other => out.push(sp(other.span())),
        }
    }
}

fn settings_w40() -> FormatterSettings {
    let mut s = FormatterSettings::default();
    s.max_width = 40;
    s
}

fn format_nodes_with(settings: FormatterSettings, nodes: &[Node], run: impl FnOnce(&mut Formatter, &[Node])) -> String {
    let ps = settings.to_printer_settings(None);
    let printer = Printer::new(ps);
    let mut fmt = Formatter::new(settings, printer);
    run(&mut fmt, nodes);
    fmt.printer.eof()
}

fn first_element(nodes: &[Node]) -> &Element {
    for n in nodes {
        if let Node::Element(e) = n {
            return e;
        }
    }
    panic!("expected element")
}

fn first_fragment(nodes: &[Node]) -> &Fragment {
    for n in nodes {
        if let Node::Fragment(f) = n {
            return f;
        }
    }
    panic!("expected fragment")
}

/// Mirrors the element-formatting entry used across the element tests:
/// parse without a source buffer, width 40.
fn format_element(src: &str) -> String {
    let nodes = parse_nodes(src);
    format_nodes_with(settings_w40(), &nodes, |fmt, nodes| {
        fmt.element(first_element(nodes));
    })
}

fn format_element_with(settings: FormatterSettings, src: &str) -> String {
    let nodes = parse_nodes(src);
    format_nodes_with(settings, &nodes, |fmt, nodes| {
        fmt.element(first_element(nodes));
    })
}

/// Parse with a source buffer, recovering comments and verbatim text.
fn format_element_from_string(settings: FormatterSettings, src: &str) -> String {
    let tokens = TokenStream::from_str(src).expect("tokenize");
    let mut spans: Vec<Span> = Vec::new();
    token_spans(tokens.clone(), &mut spans);
    let nodes = rstml::parse2(tokens).expect("parse markup");
    let chars = str_chars(src);
    let conv: Vec<Node> = nodes.iter().map(|n| conv_node(n, src, &chars)).collect();
    let st = SourceText::new(src);
    let table: GapTable = extract_whitespace_and_comments(src, &st.chars, &spans);
    let ps = settings.to_printer_settings(Some(&st.chars));
    let printer = Printer::new(ps);
    let mut fmt = Formatter::with_source(settings, printer, st, table);
    fmt.element(first_element(&conv));
    fmt.printer.eof()
}

fn format_attribute_with(settings: FormatterSettings, attr_src: &str) -> String {
    let src = format!("<tag {} />", attr_src);
    let nodes = parse_nodes(&src);
    let element = first_element(&nodes);
    format_nodes_with(settings, &nodes, |fmt, _| {
        fmt.attribute(&element.attributes[0], None);
    })
}

fn format_attribute(attr_src: &str) -> String {
    format_attribute_with(FormatterSettings::default(), attr_src)
}

fn brace_style(style: AttributeValueBraceStyle) -> FormatterSettings {
    let mut s = FormatterSettings::default();
    s.attr_value_brace_style = style;
    s
}

fn closing_style_w40(style: ClosingTagStyle) -> FormatterSettings {
    let mut s = settings_w40();
    s.closing_tag_style = style;
    s
}

fn format_fragment(src: &str) -> String {
    let nodes = parse_nodes(src);
    format_nodes_with(settings_w40(), &nodes, |fmt, nodes| {
        fmt.fragment(first_fragment(nodes));
    })
}

/// Parse a full macro invocation, as the collector would hand it over.
fn parse_view_macro(src: &str) -> ViewMacro {
    let mac: syn::Macro = syn::parse_str(src).expect("parse macro");
    let chars = str_chars(src);
    build_view_macro(&mac, src, &chars, ParentIndent::default())
}

fn build_view_macro(
    mac: &syn::Macro,
    src: &str,
    chars: &Vec<char>,
    parent_indent: ParentIndent,
) -> ViewMacro {
    let all_tokens: Vec<TokenTree> = mac.tokens.clone().into_iter().collect();
    let head: Vec<MacroToken> = all_tokens
        .iter()
        .take(6)
        .map(|tt| match tt {
            TokenTree::Ident(i) => MacroToken::Ident(i.to_string()),
            TokenTree::Punct(p) => MacroToken::Punct(p.as_char()),
            TokenTree::Group(g) => MacroToken::Group(g.to_string()),
            TokenTree::Literal(l) => MacroToken::Literal(l.to_string()),
        })
        .collect();
    let prelude = split_macro_args(&head).expect("construct arguments");
    let cx = prelude.cx;
    let global_class = prelude.global_class;
    let rest: TokenStream = all_tokens.into_iter().skip(prelude.consumed).collect();
    let nodes = rstml::parse2(rest).expect("parse markup");
    let conv: Vec<Node> = nodes.iter().map(|n| conv_node(n, src, &chars)).collect();
    let mut spans: Vec<Span> = Vec::new();
    token_spans(mac.to_token_stream(), &mut spans);
    let segments: Vec<String> = mac.path.segments.iter().map(|seg| seg.ident.to_string()).collect();
    let path = viewfmt::formatter::get_macro_full_path(&segments);
    ViewMacro {
        parent_indent,
        cx,
        global_class,
        nodes: conv,
        span: sp(mac.span()),
        path,
        token_spans: spans,
    }
}

fn format_view_macro(src: &str) -> String {
    let vm = parse_view_macro(src);
    format_macro(&vm, &FormatterSettings::default(), None)
}

// ----- attribute tests -----

#[test]
fn key_only_attr() {
    assert_eq!(format_attribute("test"), "test");
}

#[test]
fn key_only_dash_attr() {
    assert_eq!(format_attribute("test-dash"), "test-dash");
}

#[test]
fn key_value_integer_attr() {
    assert_eq!(format_attribute("key=123"), "key=123");
}

#[test]
fn key_value_str_attr() {
    assert_eq!(format_attribute("key=\"K-123\""), "key=\"K-123\"");
}

#[test]
fn key_value_expr_attr() {
    assert_eq!(
        format_attribute("on:click=move |_| set_value(0)"),
        "on:click=move |_| set_value(0)"
    );
}

#[test]
fn key_value_expr_attr_always_braces() {
    let s = || brace_style(AttributeValueBraceStyle::Always);
    assert_eq!(
        format_attribute_with(s(), "on:click=move |_| set_value(0)"),
        "on:click={move |_| set_value(0)}"
    );
    assert_eq!(
        format_attribute_with(s(), "on:click={move |_| set_value(0)}"),
        "on:click={move |_| set_value(0)}"
    );
    assert_eq!(format_attribute_with(s(), "width=100"), "width={100}");
    assert_eq!(
        format_attribute_with(s(), "alt=\"test img\""),
        "alt={\"test img\"}"
    );
}

#[test]
fn key_value_expr_attr_always_unless_lit_braces() {
    let s = || brace_style(AttributeValueBraceStyle::AlwaysUnlessLit);
    assert_eq!(
        format_attribute_with(s(), "on:click=move |_| set_value(0)"),
        "on:click={move |_| set_value(0)}"
    );
    assert_eq!(format_attribute_with(s(), "foo=bar"), "foo={bar}");
    assert_eq!(
        format_attribute_with(s(), "on:click={move |_| set_value(0)}"),
        "on:click={move |_| set_value(0)}"
    );
    assert_eq!(format_attribute_with(s(), "width={100}"), "width=100");
    assert_eq!(
        format_attribute_with(s(), "alt=\"test img\""),
        "alt=\"test img\""
    );
}

#[test]
fn key_value_expr_attr_preserve_braces() {
    let s = || brace_style(AttributeValueBraceStyle::Preserve);
    assert_eq!(
        format_attribute_with(s(), "on:click=move |_| set_value(0)"),
        "on:click=move |_| set_value(0)"
    );
    assert_eq!(
        format_attribute_with(s(), "on:click={move |_| set_value(0)}"),
        "on:click={move |_| set_value(0)}"
    );
    assert_eq!(format_attribute_with(s(), "width={100}"), "width={100}");
    assert_eq!(
        format_attribute_with(s(), "alt=\"test img\""),
        "alt=\"test img\""
    );
}

#[test]
fn key_value_expr_attr_braces_when_required() {
    let s = || brace_style(AttributeValueBraceStyle::WhenRequired);
    assert_eq!(
        format_attribute_with(s(), "on:click=move |_| set_value(0)"),
        "on:click=move |_| set_value(0)"
    );
    assert_eq!(
        format_attribute_with(s(), "on:click={move |_| set_value(0)}"),
        "on:click=move |_| set_value(0)"
    );
    assert_eq!(format_attribute_with(s(), "width={100}"), "width=100");
    assert_eq!(
        format_attribute_with(s(), "alt={\"test img\"}"),
        "alt=\"test img\""
    );
}

#[test]
fn let_bindings_single() {
    assert_eq!(format_attribute("let(name)"), "let(name)");
}

#[test]
fn let_bindings_multiple() {
    assert_eq!(format_attribute("let(name, foo, bar)"), "let(name, foo, bar)");
}

#[test]
fn let_bindings_destructuring() {
    assert_eq!(
        format_attribute("let(Item { name, value })"),
        "let(Item { name, value })"
    );
}

#[test]
fn prop_spreading_unnamed() {
    assert_eq!(format_attribute("{..}"), "{..}");
}

#[test]
fn prop_spreading_named() {
    assert_eq!(format_attribute("{ ..some_props }"), "{..some_props}");
}

// ----- element tests -----

#[test]
fn no_children() {
    assert_eq!(format_element("<div></div>"), "<div></div>");
}

#[test]
fn no_children_single_attr() {
    assert_eq!(format_element("<div width=12></div>"), "<div width=12></div>");
}

#[test]
fn no_children_multi_attr() {
    assert_eq!(
        format_element("<div key=23 width=100></div>"),
        "<div key=23 width=100></div>"
    );
}

#[test]
fn no_children_single_long_attr() {
    assert_eq!(
        format_element("<div key=a::very::deeply::nested::module::generate_key()></div>"),
        "<div key=a::very::deeply::nested::module::generate_key()></div>"
    );
}

#[test]
fn no_children_multi_long_attr() {
    assert_eq!(
        format_element(
            "<div key=a::very::deeply::nested::module::generate_key() width=100></div>"
        ),
        "<div\n    key=a::very::deeply::nested::module::generate_key()\n    width=100\n></div>"
    );
}

#[test]
fn no_children_multi_attr_with_comment() {
    let formatted = format_element_from_string(
        settings_w40(),
        "<div key=a\n    // width\n    width=100></div>\n",
    );
    assert_eq!(formatted, "<div\n    key=a\n    // width\n    width=100\n></div>");
}

#[test]
fn child_element() {
    assert_eq!(
        format_element("<div><span>\"hello\"</span></div>"),
        "<div>\n    <span>\"hello\"</span>\n</div>"
    );
}

#[test]
fn child_element_single_textual() {
    assert_eq!(format_element("<div>\"hello\"</div>"), "<div>\"hello\"</div>");
}

#[test]
fn child_element_single_textual_unquoted() {
    let formatted = format_element_from_string(settings_w40(), "<div>hello</div>");
    assert_eq!(formatted, "<div>hello</div>");
}

#[test]
fn child_element_single_textual_single_attr() {
    assert_eq!(
        format_element("<div key=12>\"hello\"</div>"),
        "<div key=12>\"hello\"</div>"
    );
}

#[test]
fn child_element_single_textual_multi_attr() {
    assert_eq!(
        format_element("<div key=12 width=100>\"hello\"</div>"),
        "<div key=12 width=100>\n    \"hello\"\n</div>"
    );
}

#[test]
fn child_element_two_textual() {
    assert_eq!(
        format_element("<div>\"The count is \" {count}</div>"),
        "<div>\"The count is \" {count}</div>"
    );
}

#[test]
fn child_element_many_textual() {
    assert_eq!(
        format_element(
            "<div>\"The current count is: \" {count} \". Increment by one is this: \" {count + 1}</div>"
        ),
        "<div>\n    \"The current count is: \" {count}\n    \". Increment by one is this: \" {count + 1}\n</div>"
    );
}

#[test]
fn child_element_two_textual_unquoted() {
    let formatted = format_element_from_string(settings_w40(), "<div>The count is {count}.</div>");
    assert_eq!(formatted, "<div>The count is {count}.</div>");
}

#[test]
fn child_element_two_textual_unquoted_no_trailingspace() {
    let formatted = format_element_from_string(settings_w40(), "<div>The count is{count}</div>");
    assert_eq!(formatted, "<div>The count is{count}</div>");
}

#[test]
fn child_element_many_textual_unquoted() {
    let formatted = format_element_from_string(
        settings_w40(),
        "<div>The current count is: {count}. Increment by one is this: {count + 1}</div>",
    );
    assert_eq!(
        formatted,
        "<div>\n    The current count is: {count}. Increment by one is this:\n    {count + 1}\n</div>"
    );
}

#[test]
fn html_unquoted_text() {
    let formatted = format_element_from_string(settings_w40(), "<div>Unquoted text</div>");
    assert_eq!(formatted, "<div>Unquoted text</div>");
}

#[test]
fn html_unquoted_text_with_surrounding_spaces() {
    let formatted =
        format_element_from_string(settings_w40(), "<div> Unquoted text with  spaces </div>");
    assert_eq!(formatted, "<div>Unquoted text with  spaces</div>");
}

#[test]
fn html_unquoted_text_multiline() {
    let formatted = format_element_from_string(
        settings_w40(),
        "<div>\nUnquoted text\n        with  spaces\n</div>\n",
    );
    assert_eq!(formatted, "<div>\n    Unquoted text\n            with  spaces\n</div>");
}

#[test]
fn single_empty_line() {
    let formatted = format_element_from_string(
        settings_w40(),
        "<div>\n    <Nav />\n\n    <Main />\n</div>\n",
    );
    assert_eq!(formatted, "<div>\n    <Nav />\n\n    <Main />\n</div>");
}

#[test]
fn multiple_empty_lines() {
    let formatted = format_element_from_string(
        settings_w40(),
        "<div>\n    <Nav />\n\n\n\n    <Main />\n</div>\n",
    );
    assert_eq!(formatted, "<div>\n    <Nav />\n\n    <Main />\n</div>");
}

#[test]
fn surrounded_by_empty_lines() {
    let formatted = format_element_from_string(
        settings_w40(),
        "\n<div>\n    <Nav />\n    <Main />\n</div>\n\n",
    );
    assert_eq!(formatted, "<div>\n    <Nav />\n    <Main />\n</div>");
}

#[test]
fn other_test() {
    let formatted = format_element_from_string(
        settings_w40(),
        "<div>\n    <div\n        class=\"foo\"\n    >\n        <i class=\"bi-google\"></i>\n        \"Sign in with google\"\n    </div>\n</div>\n",
    );
    assert_eq!(
        formatted,
        "<div>\n    <div class=\"foo\">\n        <i class=\"bi-google\"></i>\n        \"Sign in with google\"\n    </div>\n</div>"
    );
}

#[test]
fn with_generics() {
    assert_eq!(format_element("<SizeOf<String>/>"), "<SizeOf<String> />");
}

#[test]
fn void_element_no_children_separate_closing_tag() {
    for style in [
        ClosingTagStyle::Preserve,
        ClosingTagStyle::SelfClosing,
        ClosingTagStyle::NonSelfClosing,
    ] {
        assert_eq!(
            format_element_with(closing_style_w40(style), "<input></input>"),
            "<input />"
        );
    }
}

#[test]
fn void_element_no_children_self_closing_tag_one_line() {
    for style in [
        ClosingTagStyle::Preserve,
        ClosingTagStyle::SelfClosing,
        ClosingTagStyle::NonSelfClosing,
    ] {
        assert_eq!(format_element_with(closing_style_w40(style), "<input/>"), "<input />");
    }
}

#[test]
fn void_element_no_children_self_closing_tag_single_attr() {
    for style in [
        ClosingTagStyle::Preserve,
        ClosingTagStyle::SelfClosing,
        ClosingTagStyle::NonSelfClosing,
    ] {
        assert_eq!(
            format_element_with(closing_style_w40(style), "<input key=1/>"),
            "<input key=1 />"
        );
    }
}

#[test]
fn void_element_no_children_self_closing_tag_multi_line() {
    for style in [
        ClosingTagStyle::Preserve,
        ClosingTagStyle::SelfClosing,
        ClosingTagStyle::NonSelfClosing,
    ] {
        assert_eq!(
            format_element_with(
                closing_style_w40(style),
                "<input key=1 class=\"veryveryvery longlonglong attributesattributesattributes listlistlist\"/>"
            ),
            "<input\n    key=1\n    class=\"veryveryvery longlonglong attributesattributesattributes listlistlist\"\n/>"
        );
    }
}

#[test]
fn non_void_element_with_child() {
    for style in [
        ClosingTagStyle::Preserve,
        ClosingTagStyle::SelfClosing,
        ClosingTagStyle::NonSelfClosing,
    ] {
        assert_eq!(
            format_element_with(closing_style_w40(style), "<div>\"Child\"</div>"),
            "<div>\"Child\"</div>"
        );
    }
}

#[test]
fn non_void_element_no_children_separate_closing_tag() {
    assert_eq!(
        format_element_with(closing_style_w40(ClosingTagStyle::Preserve), "<div></div>"),
        "<div></div>"
    );
    assert_eq!(
        format_element_with(closing_style_w40(ClosingTagStyle::SelfClosing), "<div></div>"),
        "<div />"
    );
    assert_eq!(
        format_element_with(closing_style_w40(ClosingTagStyle::NonSelfClosing), "<div></div>"),
        "<div></div>"
    );
}

#[test]
fn non_void_element_no_children_self_closing_tag() {
    assert_eq!(
        format_element_with(closing_style_w40(ClosingTagStyle::Preserve), "<div/>"),
        "<div />"
    );
    assert_eq!(
        format_element_with(closing_style_w40(ClosingTagStyle::SelfClosing), "<div/>"),
        "<div />"
    );
    assert_eq!(
        format_element_with(closing_style_w40(ClosingTagStyle::NonSelfClosing), "<div/>"),
        "<div></div>"
    );
}

#[test]
fn preserve_braces_before_spreading() {
    let wr = || closing_style_w40(ClosingTagStyle::Preserve);
    let with_style = |style: AttributeValueBraceStyle, src: &str| {
        let mut s = wr();
        s.attr_value_brace_style = style;
        format_element_with(s, src)
    };
    assert_eq!(
        with_style(AttributeValueBraceStyle::WhenRequired, "<div foo={bar} {..} a={b} />"),
        "<div foo={bar} {..} a=b />"
    );
    assert_eq!(
        with_style(AttributeValueBraceStyle::WhenRequired, "<div foo={bar} {..other_props} />"),
        "<div foo={bar} {..other_props} />"
    );
    assert_eq!(
        with_style(AttributeValueBraceStyle::WhenRequired, "<div foo={12} {..} a={\"test\"} {..} />"),
        "<div foo=12 {..} a=\"test\" {..} />"
    );
    assert_eq!(
        with_style(AttributeValueBraceStyle::AlwaysUnlessLit, "<div foo={12} {..} a=|| {} {..} />"),
        "<div foo=12 {..} a={|| {}} {..} />"
    );
    assert_eq!(
        with_style(AttributeValueBraceStyle::Always, "<div foo={bar} {..} a=12 {..} />"),
        "<div foo={bar} {..} a={12} {..} />"
    );
}

// ----- fragment tests -----

#[test]
fn fragment_no_children() {
    assert_eq!(format_fragment("<> </>"), "<></>");
}

#[test]
fn fragment_child_element() {
    assert_eq!(
        format_fragment("<><span>\"hello\"</span></>"),
        "<>\n    <span>\"hello\"</span>\n</>"
    );
}

#[test]
fn fragment_child_element_single_textual() {
    assert_eq!(format_fragment("<>\"hello\"</>"), "<>\"hello\"</>");
}

#[test]
fn fragment_child_element_two_textual() {
    assert_eq!(
        format_fragment("<>\"The count is\" {count}</>"),
        "<>\"The count is\" {count}</>"
    );
}

#[test]
fn fragment_child_element_many_textual() {
    assert_eq!(
        format_fragment(
            "<>\"The current count is: \" {count} \". Increment by one is this: \" {count + 1}</>"
        ),
        "<>\n    \"The current count is: \" {count}\n    \". Increment by one is this: \" {count + 1}\n</>"
    );
}

// ----- comment and doctype tests -----

#[test]
fn html_comment() {
    let nodes = parse_nodes("<!--   \"comment\"   -->");
    let formatted = format_nodes_with(settings_w40(), &nodes, |fmt, nodes| {
        if let Node::Comment { value, value_span, .. } = &nodes[0] {
            fmt.comment(value, *value_span);
        } else {
            panic!("expected comment");
        }
    });
    assert_eq!(formatted, "<!-- \"comment\" -->");
}

#[test]
fn html_comment_long() {
    let nodes = parse_nodes(
        "<!--   \"this is a very loooooooooooooooooooooooooooooooooooooooooooooooooooooooooooooooooong comment\"   -->",
    );
    let formatted = format_nodes_with(settings_w40(), &nodes, |fmt, nodes| {
        if let Node::Comment { value, value_span, .. } = &nodes[0] {
            fmt.comment(value, *value_span);
        } else {
            panic!("expected comment");
        }
    });
    assert_eq!(
        formatted,
        "<!-- \"this is a very loooooooooooooooooooooooooooooooooooooooooooooooooooooooooooooooooong comment\" -->"
    );
}

#[test]
fn html_doctype() {
    let nodes = parse_nodes("< !DOCTYPE html   >");
    let formatted = format_nodes_with(settings_w40(), &nodes, |fmt, nodes| {
        if let Node::Doctype { value, value_col, .. } = &nodes[0] {
            fmt.doctype(value, *value_col);
        } else {
            panic!("expected doctype");
        }
    });
    assert_eq!(formatted, "<!DOCTYPE html>");
}

// ----- string and expression tests -----

#[test]
fn multiline_string_as_child() {
    let src = "<div>\n            \"Lorem ipsum dolor sit amet, consectetur adipiscing elit,\n                sed do eiusmod tempor incididunt ut labore et dolore magna aliqua.\n                        Ut enim ad minim veniam, quis nostrud exercitation ullamco laboris nisi ut aliquip ex ea commodo consequat.\n                Duis aute irure dolor in reprehenderit in voluptate velit esse cillum dolore eu fugiat nulla pariatur.\n            Excepteur sint occaecat cupidatat non proident, sunt in culpa qui officia deserunt mollit anim id est laborum.\"\n    </div>";
    let formatted = format_element_from_string(settings_w40(), src);
    assert_eq!(
        formatted,
        "<div>\n    \"Lorem ipsum dolor sit amet, consectetur adipiscing elit,\n        sed do eiusmod tempor incididunt ut labore et dolore magna aliqua.\n                Ut enim ad minim veniam, quis nostrud exercitation ullamco laboris nisi ut aliquip ex ea commodo consequat.\n        Duis aute irure dolor in reprehenderit in voluptate velit esse cillum dolore eu fugiat nulla pariatur.\n    Excepteur sint occaecat cupidatat non proident, sunt in culpa qui officia deserunt mollit anim id est laborum.\"\n</div>"
    );
}

#[test]
fn string_whitespace_prefix() {
    let formatted = format_element_from_string(
        settings_w40(),
        "<div>\n            \"    foo\"\n    </div>",
    );
    assert_eq!(formatted, "<div>\"    foo\"</div>");
}

#[test]
fn multiline_string_whitespace_prefix() {
    let src = "<div>\n            \"        Lorem ipsum dolor sit amet, consectetur adipiscing elit,\n                sed do eiusmod tempor incididunt ut labore et dolore magna aliqua.\n                        Ut enim ad minim veniam, quis nostrud exercitation ullamco laboris nisi ut aliquip ex ea commodo consequat.\n                Duis aute irure dolor in reprehenderit in voluptate velit esse cillum dolore eu fugiat nulla pariatur.\n            Excepteur sint occaecat cupidatat non proident, sunt in culpa qui officia deserunt mollit anim id est laborum.\"\n    </div>";
    let formatted = format_element_from_string(settings_w40(), src);
    assert_eq!(
        formatted,
        "<div>\n    \"        Lorem ipsum dolor sit amet, consectetur adipiscing elit,\n        sed do eiusmod tempor incididunt ut labore et dolore magna aliqua.\n                Ut enim ad minim veniam, quis nostrud exercitation ullamco laboris nisi ut aliquip ex ea commodo consequat.\n        Duis aute irure dolor in reprehenderit in voluptate velit esse cillum dolore eu fugiat nulla pariatur.\n    Excepteur sint occaecat cupidatat non proident, sunt in culpa qui officia deserunt mollit anim id est laborum.\"\n</div>"
    );
}

#[test]
fn multiline_unquoted_string_as_child() {
    let src = "<div>\n            Lorem ipsum dolor sit amet, consectetur adipiscing elit,\n                sed do eiusmod tempor incididunt ut labore et dolore magna aliqua.\n                        Ut enim ad minim veniam, quis nostrud exercitation ullamco laboris nisi ut aliquip ex ea commodo consequat.\n                Duis aute irure dolor in reprehenderit in voluptate velit esse cillum dolore eu fugiat nulla pariatur.\n            Excepteur sint occaecat cupidatat non proident, sunt in culpa qui officia deserunt mollit anim id est laborum.\n    </div>";
    let formatted = format_element_from_string(settings_w40(), src);
    assert_eq!(
        formatted,
        "<div>\n    Lorem ipsum dolor sit amet, consectetur adipiscing elit,\n        sed do eiusmod tempor incididunt ut labore et dolore magna aliqua.\n                Ut enim ad minim veniam, quis nostrud exercitation ullamco laboris nisi ut aliquip ex ea commodo consequat.\n        Duis aute irure dolor in reprehenderit in voluptate velit esse cillum dolore eu fugiat nulla pariatur.\n    Excepteur sint occaecat cupidatat non proident, sunt in culpa qui officia deserunt mollit anim id est laborum.\n</div>"
    );
}

#[test]
fn raw_string_as_child() {
    let formatted =
        format_element_from_string(settings_w40(), "<p>r#\"some\" string\"#</p>");
    assert_eq!(formatted, "<p>r#\"some\" string\"#</p>");
}

#[test]
fn unicode_scalar() {
    let formatted = format_element_from_string(settings_w40(), "<p>\"\\u{00A9}\u{1F980}\"</p>");
    assert_eq!(formatted, "<p>\"\\u{00A9}\u{1F980}\"</p>");
}

// ----- whole-invocation tests -----

#[test]
fn one_liner() {
    assert_eq!(
        format_view_macro("view! { <div>\"hi\"</div> }"),
        "view! { <div>\"hi\"</div> }"
    );
}

#[test]
fn with_nested_nodes() {
    assert_eq!(
        format_view_macro("view! { <div><span>\"hi\"</span></div> }"),
        "view! {\n    <div>\n        <span>\"hi\"</span>\n    </div>\n}"
    );
}

#[test]
fn with_global_class() {
    assert_eq!(
        format_view_macro("view! { class = STYLE, <div><span>\"hi\"</span></div> }"),
        "view! { class=STYLE,\n    <div>\n        <span>\"hi\"</span>\n    </div>\n}"
    );
}

#[test]
fn no_reactive_scope() {
    assert_eq!(
        format_view_macro("view! { <div><span>\"hi\"</span></div> }"),
        "view! {\n    <div>\n        <span>\"hi\"</span>\n    </div>\n}"
    );
}

#[test]
fn no_reactive_scope_with_global_class() {
    assert_eq!(
        format_view_macro("view! { class = STYLE, <div><span>\"hi\"</span></div> }"),
        "view! { class=STYLE,\n    <div>\n        <span>\"hi\"</span>\n    </div>\n}"
    );
}

#[test]
fn unnamed_element_empty_props_spreading() {
    assert_eq!(
        format_view_macro("view! { <{..} class=\"foo\" /> }"),
        "view! { <{..} class=\"foo\" /> }"
    );
}

#[test]
fn unnamed_element_named_props_spreading() {
    assert_eq!(
        format_view_macro("view! { <{..some_props} class=\"foo\" /> }"),
        "view! { <{..some_props} class=\"foo\" /> }"
    );
}

// ----- whole-file pipeline -----

struct MacroCollector<'a> {
    src: &'a str,
    chars: Vec<char>,
    names: Vec<String>,
    macros: Vec<ViewMacro>,
}

impl<'ast, 'a> syn::visit::Visit<'ast> for MacroCollector<'a> {
    fn visit_macro(&mut self, node: &'ast syn::Macro) {
            let segments: Vec<String> =
            node.path.segments.iter().map(|seg| seg.ident.to_string()).collect();
        let path = viewfmt::formatter::get_macro_full_path(&segments);
        if self.names.iter().any(|n| n == &path) {
            let line = node.span().start().line;
            let parent_indent = viewfmt::formatter::leading_indent(&self.chars, line);
            let vm = build_view_macro(node, self.src, &self.chars, parent_indent);
            self.macros.push(vm);
        }
        syn::visit::visit_macro(self, node);
    }
}

fn format_file_source(settings: &FormatterSettings, source: &str) -> String {
    let ast = syn::parse_file(source).expect("parse file");
    let mut coll = MacroCollector {
        src: source,
        chars: str_chars(source),
        names: settings.macro_names.iter().map(|s| s.clone()).collect(),
        macros: Vec::new(),
    };
    syn::visit::visit_file(&mut coll, &ast);
    let (out, _edits) =
        viewfmt::source_file::format_source(source, &coll.macros, settings).expect("edits fit");
    out
}

#[test]
fn it_works() {
    let source = "fn main() {\n    view! {   cx ,  <div>  <span>\"hello\"</span></div>  }; \n}\n";
    let result = format_file_source(&FormatterSettings::default(), source);
    assert_eq!(
        result,
        "fn main() {\n    view! { cx,\n        <div>\n            <span>\"hello\"</span>\n        </div>\n    }; \n}\n"
    );
}

#[test]
fn fully_qualified_macro_path() {
    let source =
        "fn main() {\n    leptos::view! {   cx ,  <div>  <span>\"hello\"</span></div>  }; \n}\n";
    let result = format_file_source(&FormatterSettings::default(), source);
    assert_eq!(
        result,
        "fn main() {\n    leptos::view! { cx,\n        <div>\n            <span>\"hello\"</span>\n        </div>\n    }; \n}\n"
    );
}

#[test]
fn ignore_other_macros() {
    let source = "fn main() {\n    leptos::view! {   cx ,  <div class=format!(\"classy\")>  <span>\"hello\"</span></div>  }; \n}\n";
    let result = format_file_source(&FormatterSettings::default(), source);
    assert_eq!(
        result,
        "fn main() {\n    leptos::view! { cx,\n        <div class=format!(\"classy\")>\n            <span>\"hello\"</span>\n        </div>\n    }; \n}\n"
    );
}

#[test]
fn fully_qualified_macro_path_overridden() {
    let source = "fn main() {\n    foo::bar::some_view! {   cx ,  <div>  <span>\"hello\"</span></div>  }; \n}\n";
    let mut settings = FormatterSettings::default();
    settings.macro_names = vec![String::from("foo::bar::some_view")];
    let result = format_file_source(&settings, source);
    assert_eq!(
        result,
        "fn main() {\n    foo::bar::some_view! { cx,\n        <div>\n            <span>\"hello\"</span>\n        </div>\n    }; \n}\n"
    );
}

#[test]
fn multiple() {
    let source = "fn main() {\n    view! {   cx ,  <div>  <span>\"hello\"</span></div>  }; \n    view! {   cx ,  <div>  <span>\"hello\"</span></div>  }; \n}\n";
    let result = format_file_source(&FormatterSettings::default(), source);
    assert_eq!(
        result,
        "fn main() {\n    view! { cx,\n        <div>\n            <span>\"hello\"</span>\n        </div>\n    }; \n    view! { cx,\n        <div>\n            <span>\"hello\"</span>\n        </div>\n    }; \n}\n"
    );
}

#[test]
fn with_special_characters() {
    let source =
        "fn main() {\n    view! {   cx ,  <div>  <span>\"hello\u{00b2}\u{1f4a3}\"</span></div>  }; \n}\n";
    let result = format_file_source(&FormatterSettings::default(), source);
    assert_eq!(
        result,
        "fn main() {\n    view! { cx,\n        <div>\n            <span>\"hello\u{00b2}\u{1f4a3}\"</span>\n        </div>\n    }; \n}\n"
    );
}

#[test]
fn multiline_view_with_variable_binding() {
    let source = "#[component]\nfn test2(cx: Scope) -> impl IntoView {\n    let x = view! { cx, <div><span>Hello</span></div> };\n}\n";
    let result = format_file_source(&FormatterSettings::default(), source);
    assert_eq!(
        result,
        "#[component]\nfn test2(cx: Scope) -> impl IntoView {\n    let x = view! { cx,\n        <div>\n            <span>Hello</span>\n        </div>\n    };\n}\n"
    );
}

#[test]
fn inside_match_case() {
    let source = "use leptos::*;\n\nenum ExampleEnum {\n    ValueOneWithAReallyLongName,\n    ValueTwoWithAReallyLongName,\n}\n\n#[component]\nfn Component(cx: Scope, val: ExampleEnum) -> impl IntoView {\n    match val {\n        ExampleEnum::ValueOneWithAReallyLongName => \n            view! { cx,\n                                                        <div>\n                                                            <div>\"Value One\"</div>\n                                                        </div>\n                                                    }.into_view(cx),\n        ExampleEnum::ValueTwoWithAReallyLongName =>  view! { cx,\n                                                        <div>\n                                                            <div>\"Value Two\"</div>\n                                                        </div>\n                                                    }.into_view(cx),\n    };\n}\n";
    let result = format_file_source(&FormatterSettings::default(), source);
    let expected = "use leptos::*;\n\nenum ExampleEnum {\n    ValueOneWithAReallyLongName,\n    ValueTwoWithAReallyLongName,\n}\n\n#[component]\nfn Component(cx: Scope, val: ExampleEnum) -> impl IntoView {\n    match val {\n        ExampleEnum::ValueOneWithAReallyLongName => \n            view! { cx,\n                <div>\n                    <div>\"Value One\"</div>\n                </div>\n            }.into_view(cx),\n        ExampleEnum::ValueTwoWithAReallyLongName =>  view! { cx,\n            <div>\n                <div>\"Value Two\"</div>\n            </div>\n        }.into_view(cx),\n    };\n}\n";
    assert_eq!(result, expected);
}

#[test]
fn with_unquoted_text_and_multibyte_chars() {
    let source = "#[component]\npub fn History() -> impl IntoView {\n    // \u{00bd}\u{00bd}\u{00bd}\u{00bd}\n\n    view! {\n        <button>\"First\"</button>\n        <button>First</button>\n    }\n}\n";
    let result = format_file_source(&FormatterSettings::default(), source);
    assert_eq!(result, source);
}

#[test]
fn indent_with_tabs() {
    let source = "fn main() {\n view! { cx,\n      <div>\n        <div>Example</div>\n      </div>\n    }\n}\n";
    let mut settings = FormatterSettings::default();
    settings.tab_spaces = 1;
    settings.indentation_style = viewfmt::formatter::IndentationStyle::Tabs;
    let result = format_file_source(&settings, source);
    assert_eq!(
        result,
        "fn main() {\n view! { cx,\n\t\t<div>\n\t\t\t<div>Example</div>\n\t\t</div>\n\t}\n}\n"
    );
}

#[test]
fn auto_detect_tabs() {
    let source = "fn main() {\n\tview! { cx,\n      <div>\n        <div>Example</div>\n      </div>\n    }\n}\n";
    let settings = FormatterSettings::default();
    let result = format_file_source(&settings, source);
    assert_eq!(
        result,
        "fn main() {\n\tview! { cx,\n\t\t<div>\n\t\t\t<div>Example</div>\n\t\t</div>\n\t}\n}\n"
    );
}

#[test]
fn auto_detect_spaces() {
    let source = "fn main() {\n view! { cx,\n      <div>\n        <div>Example</div>\n      </div>\n    }\n}\n";
    let mut settings = FormatterSettings::default();
    settings.tab_spaces = 1;
    let result = format_file_source(&settings, source);
    assert_eq!(
        result,
        "fn main() {\n view! { cx,\n  <div>\n   <div>Example</div>\n  </div>\n }\n}\n"
    );
}

#[test]
fn rustfmt_leptosfmt_indent_difference() {
    let source = "// Valid Rust formatted code\n#[component]\npub(crate) fn Error(cx: Scope, message: Option<String>) -> impl IntoView {\n    view! { cx,\n      <div>\n        Example\n      </div>\n    }\n}\n";
    let mut settings = FormatterSettings::default();
    settings.tab_spaces = 2;
    let result = format_file_source(&settings, source);
    assert_eq!(
        result,
        "// Valid Rust formatted code\n#[component]\npub(crate) fn Error(cx: Scope, message: Option<String>) -> impl IntoView {\n    view! { cx, <div>Example</div> }\n}\n"
    );
}

// ----- properties over the whole pipeline -----

// Formatting already-formatted output again changes nothing.
#[test]
fn formatting_is_idempotent_on_formatted_output() {
    let source = "fn main() {\n    view! {   cx ,  <div>  <span>\"hello\"</span></div>  }; \n}\n";
    let settings = FormatterSettings::default();
    let once = format_file_source(&settings, source);
    let twice = format_file_source(&settings, &once);
    assert_eq!(once, twice);
}

// A file without any occurrence of the construct comes back byte-identical.
#[test]
fn file_without_occurrences_is_unchanged() {
    let source = "fn main() {\n    let x = 1;  \n    other_macro! { <div>  </div> };\n}\n";
    let result = format_file_source(&FormatterSettings::default(), source);
    assert_eq!(result, source);
}

// A configured attribute value goes through the class sorter.
#[test]
fn tailwind_attr_value_is_sorted() {
    let mut settings = FormatterSettings::default();
    settings.attr_values = vec![(
        String::from("class"),
        viewfmt::formatter::ExpressionFormatter::Tailwind,
    )];
    assert_eq!(
        format_attribute_with(settings, "class=\"p-4 m-4 flex hover:p-1\""),
        "class=m-4 flex p-4 hover:p-1"
    );
}

// Windows line endings are used throughout the rendered replacement when
// configured.
#[test]
fn windows_newline_style_renders_crlf() {
    let mut settings = FormatterSettings::default();
    settings.newline_style = viewfmt::formatter::NewlineStyle::Windows;
    let formatted = format_view_macro_with(settings, "view! { <div><span>\"hi\"</span></div> }");
    assert_eq!(
        formatted,
        "view! {\r\n    <div>\r\n        <span>\"hi\"</span>\r\n    </div>\r\n}"
    );
}

fn format_view_macro_with(settings: FormatterSettings, src: &str) -> String {
    let vm = parse_view_macro(src);
    format_macro(&vm, &settings, None)
}

// A block child that is not a single expression is reproduced verbatim,
// re-indented relative to its starting column.
#[test]
fn block_child_kept_verbatim() {
    let src = "<div>{\n    let a = 1;\n    a\n}</div>";
    let formatted = format_element_from_string(settings_w40(), src);
    assert_eq!(formatted, "<div>\n    {\n    let a = 1;\n    a\n    }\n</div>");
}

// Element-level formatting is idempotent on its own output.
#[test]
fn element_formatting_idempotent() {
    let first = format_element_from_string(
        settings_w40(),
        "<div>\n    <Nav />\n\n\n    <Main />\n</div>",
    );
    let second = format_element_from_string(settings_w40(), &first);
    assert_eq!(first, second);
}

// Comments recovered from the gaps come out exactly once and in source
// order, with blank-line runs collapsed.
#[test]
fn comments_between_children_kept_in_order() {
    let source = "fn main() {\n    view! { cx,\n        // one\n        <div>\n            // two\n\n\n            // three\n            <span>\"hello\"</span>\n        </div>\n    };\n}\n";
    let result = format_file_source(&FormatterSettings::default(), source);
    assert_eq!(
        result,
        "fn main() {\n    view! { cx,\n        // one\n        <div>\n            // two\n\n            // three\n            <span>\"hello\"</span>\n        </div>\n    };\n}\n"
    );
}
