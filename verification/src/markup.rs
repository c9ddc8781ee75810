//! The markup tree the formatter walks: elements, fragments, text, raw
//! text, embedded expression blocks, comments and doctypes, with the source
//! span of every node.  The tree holds plain values — names, expression
//! source text, positions — as the grammar parser reports them.

use vstd::prelude::*;

use crate::span::Span;

verus! {

/// How an embedded expression prints: a bare literal, a string literal, a
/// braced block (holding its single inner expression when it has exactly
/// one), or any other expression.
pub enum ExprKind {
    Lit,
    StrLit(String),
    Braced(Option<Box<Expr>>),
    Other,
}

/// An embedded expression: its source text, where it stands, and what kind
/// of expression it is.
pub struct Expr {
    pub text: String,
    pub span: Span,
    pub kind: ExprKind,
}

/// An element or attribute name: an identifier-like name, or a braced
/// expression standing in name position.
pub enum TagName {
    Ident(String),
    Block(Expr),
}

/// The value part of a keyed attribute: nothing, a binding pattern list, or
/// an expression.
pub enum AttrValue {
    Empty,
    Binding(Vec<String>),
    Value(Expr),
}

/// A `key` or `key=value` attribute.
pub struct KeyedAttribute {
    pub name: String,
    pub span: Span,
    pub value: AttrValue,
}

/// An attribute: keyed, or a braced block — a spread block (`{..}` or
/// `{..props}`) or any other block expression in attribute position.
pub enum Attribute {
    Keyed(KeyedAttribute),
    Block { expr: Expr, spread: bool, span: Span },
}

/// An element: name, optional generic arguments as written, attributes,
/// children, whether its source used the self-closing form, and the span of
/// its separate closing tag when it has one.
pub struct Element {
    pub name: TagName,
    pub generics: Option<String>,
    pub attributes: Vec<Attribute>,
    pub children: Vec<Node>,
    pub self_closed: bool,
    pub close_span: Option<Span>,
    pub span: Span,
}

/// A fragment: `<> ... </>`.
pub struct Fragment {
    pub children: Vec<Node>,
    pub close_span: Span,
    pub span: Span,
}

/// One node of the markup tree.
pub enum Node {
    Element(Element),
    Fragment(Fragment),
    Text { value: String, span: Span },
    RawText { text: String, span: Span },
    Block(Expr),
    Comment { value: String, value_span: Span, span: Span },
    Doctype { value: String, value_col: usize, span: Span },
}

/// Structural size of an expression, the recursion measure for printing it.
pub open spec fn expr_size(e: Expr) -> nat
    decreases e,
{
    match e.kind {
        ExprKind::Braced(Some(inner)) => 1 + expr_size(*inner),
        _ => 1,
    }
}

/// Structural size of a node.
pub open spec fn node_size(n: Node) -> nat
    decreases n,
{
    match n {
        Node::Element(e) => 1 + nodes_size(e.children@),
        Node::Fragment(f) => 1 + nodes_size(f.children@),
        _ => 1,
    }
}

/// Structural size of a node sequence; every member is strictly smaller.
pub open spec fn nodes_size(s: Seq<Node>) -> nat
    decreases s,
{
    if s.len() == 0 {
        0
    } else {
        1 + node_size(s.first()) + nodes_size(s.drop_first())
    }
}

/// A member of a sequence is smaller than the whole sequence's size.
pub proof fn lemma_member_size(s: Seq<Node>, i: int)
    requires
        0 <= i < s.len(),
    ensures
        node_size(s[i]) < nodes_size(s),
    decreases s.len(),
{
    if i == 0 {
        assert(s[0] == s.first());
    } else {
        lemma_member_size(s.drop_first(), i - 1);
        assert(s.drop_first()[i - 1] == s[i]);
    }
}

impl Node {
    /// The source span of a node.
    pub open spec fn spec_span(&self) -> Span {
        match self {
            Node::Element(e) => e.span,
            Node::Fragment(f) => f.span,
            Node::Text { span, .. } => *span,
            Node::RawText { span, .. } => *span,
            Node::Block(e) => e.span,
            Node::Comment { span, .. } => *span,
            Node::Doctype { span, .. } => *span,
        }
    }

    /// The source span of a node.
    pub fn span(&self) -> (r: Span)
        ensures
            r == self.spec_span(),
    {
        match self {
            Node::Element(e) => e.span,
            Node::Fragment(f) => f.span,
            Node::Text { span, .. } => *span,
            Node::RawText { span, .. } => *span,
            Node::Block(e) => e.span,
            Node::Comment { span, .. } => *span,
            Node::Doctype { span, .. } => *span,
        }
    }
}

impl Attribute {
    /// The source span of an attribute.
    pub open spec fn spec_span(&self) -> Span {
        match self {
            Attribute::Keyed(k) => k.span,
            Attribute::Block { span, .. } => *span,
        }
    }

    /// The source span of an attribute.
    pub fn span(&self) -> (r: Span)
        ensures
            r == self.spec_span(),
    {
        match self {
            Attribute::Keyed(k) => k.span,
            Attribute::Block { span, .. } => *span,
        }
    }

    /// Whether this is a spread attribute, `{..}` or `{..target}`: the form
    /// that forbids stripping the braces of the value before it.
    pub open spec fn spec_is_spread(&self) -> bool {
        match self {
            Attribute::Block { spread, .. } => *spread,
            _ => false,
        }
    }
}

/// Whether an attribute is a spread attribute.
pub fn is_spread_attribute(attr: &Attribute) -> (r: bool)
    ensures
        r == attr.spec_is_spread(),
{
    match attr {
        Attribute::Block { spread, .. } => *spread,
        _ => false,
    }
}

} // verus!
