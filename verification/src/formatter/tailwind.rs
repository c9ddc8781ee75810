//! The alternate formatter for class-list attribute values: the configured
//! attribute values are handed to an outside sorter before printing.

use vstd::prelude::*;

use crate::formatter::{preserves, ExpressionFormatter, Formatter};
use crate::printer::GTok;

verus! {

/// The class list that the outside sorter returns for a class string.
pub uninterp spec fn tailwind_sorted(s: Seq<char>) -> Seq<char>;

/// Relies on rustywind_core's `RustyWind::sort_class_list` with the default
/// extraction regex and pattern sorter, duplicates kept: the sorted class
/// list depends on the class string alone, and a value that is not a plain
/// class list comes back unchanged.
#[verifier::external_body]
fn sort_classes(value: &str) -> (r: String)
    ensures
        r@ == tailwind_sorted(value@),
{
    let options = rustywind_core::RustyWind {
        regex: rustywind_core::sorter::FinderRegex::DefaultRegex,
        sorter: rustywind_core::sorter::Sorter::PatternSorter,
        allow_duplicates: true,
        class_wrapping: rustywind_core::class_wrapping::ClassWrapping::NoWrapping,
        tailwind_prefix: None,
        preserve_whitespace: false,
    };
    match rustywind_core::PlainClassList::parse(value) {
        Ok(list) => options.sort_class_list(list),
        Err(_) => value.to_string(),
    }
}

impl Formatter {
    /// Print a class-list attribute value, sorted.
    pub fn tailwind_expr(&mut self, attr_value: String) -> (u: ())
        requires
            old(self).wf(),
        ensures
            final(self).wf(),
            preserves(*old(self), *final(self)),
            crate::printer::extends(old(self).printer@, final(self).printer@),
            crate::printer::seg_delta(final(self).printer@) == crate::printer::seg_delta(
                old(self).printer@,
            ),
            crate::printer::seg_min(final(self).printer@) == crate::printer::seg_min(
                old(self).printer@,
            ),
            final(self).printer@ == old(self).printer@.push(
                GTok::Text(tailwind_sorted(attr_value@)),
            ),
            final(self).whitespace_and_comments == old(self).whitespace_and_comments,
            final(self).line_offset == old(self).line_offset,
    {
        proof {
            crate::printer::lemma_seg_min_le_delta(old(self).printer@);
        }
        let sorted: String = sort_classes(attr_value.as_str());
        self.printer.word_string(sorted);
    }
}

impl ExpressionFormatter {
    /// Apply this alternate formatter to an attribute value's text.
    pub fn format(&self, fmt: &mut Formatter, value: String) -> (u: ())
        requires
            old(fmt).wf(),
        ensures
            final(fmt).wf(),
            preserves(*old(fmt), *final(fmt)),
            crate::printer::extends(old(fmt).printer@, final(fmt).printer@),
            crate::printer::seg_delta(final(fmt).printer@) == crate::printer::seg_delta(
                old(fmt).printer@,
            ),
            crate::printer::seg_min(final(fmt).printer@) == crate::printer::seg_min(
                old(fmt).printer@,
            ),
            final(fmt).printer@ == old(fmt).printer@.push(GTok::Text(tailwind_sorted(value@))),
            final(fmt).whitespace_and_comments == old(fmt).whitespace_and_comments,
            final(fmt).line_offset == old(fmt).line_offset,
    {
        match self {
            ExpressionFormatter::Tailwind => fmt.tailwind_expr(value),
        }
    }
}

} // verus!
