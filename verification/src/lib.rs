//! A formatter for markup (`view!`-style) macro invocations embedded in
//! source text: a width-aware pretty printer, a position tracker, a comment
//! and blank-line reconciler, a markup-tree-to-document formatter, and a
//! patch applier that rewrites each invocation's span in place while
//! leaving all surrounding text untouched.

pub mod collect_comments;
pub mod formatter;
pub mod markup;
pub mod printer;
pub mod source_file;
pub mod span;
