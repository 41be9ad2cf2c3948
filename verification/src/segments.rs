//! The values the scanner yields, and their mathematical counterparts.

use vstd::prelude::*;

verus! {

/// A piece of the source string: a literal run of text, copied to the output
/// verbatim, or the name of a variable reference found between delimiters.
/// Both borrow from the source string; neither is ever empty.
#[derive(Debug, PartialEq, Eq)]
pub enum ExpandableStrEntry<'a> {
    Substr(&'a str),
    Var(&'a str),
}

/// The ways a scan can fail.
///
/// `InvalidFormat`: a variable reference was opened but never closed (the
/// input holds an odd number of delimiters). `InvalidVariableName`: a space
/// or `=` appeared inside a variable name before its closing delimiter.
#[derive(Debug, Clone, Copy, PartialEq, Eq, Structural)]
pub enum ExpandableStrSplitError {
    InvalidFormat,
    InvalidVariableName,
}

pub type ExpandableStrSplitResult<'a> = Result<ExpandableStrEntry<'a>, ExpandableStrSplitError>;

/// A segment as mathematics: the characters it carries, tagged as literal
/// text or as a variable name.
pub enum SegModel {
    Lit(Seq<char>),
    Var(Seq<char>),
}

/// One item of scanner output: a segment, or the error that ended the scan.
pub enum ScanItem {
    Seg(SegModel),
    Fail(ExpandableStrSplitError),
}

/// The characters a segment carries.
pub open spec fn seg_text(sg: SegModel) -> Seq<char> {
    match sg {
        SegModel::Lit(t) => t,
        SegModel::Var(v) => v,
    }
}

/// The model of one value returned by the scanner.
pub open spec fn item_model<'a>(r: ExpandableStrSplitResult<'a>) -> ScanItem {
    match r {
        Ok(ExpandableStrEntry::Substr(t)) => ScanItem::Seg(SegModel::Lit(t@)),
        Ok(ExpandableStrEntry::Var(v)) => ScanItem::Seg(SegModel::Var(v@)),
        Err(e) => ScanItem::Fail(e),
    }
}

} // verus!
