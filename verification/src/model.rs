//! The mathematical model of scanning: what a scan of a string yields, which
//! strings are well formed, and how segments map back to source text.

use vstd::prelude::*;

use crate::segments::ExpandableStrSplitError;
use crate::segments::ScanItem;
use crate::segments::SegModel;

verus! {

/// Everything a scanner will still yield, given that its cursor stands at
/// character `pos` of `s`, the token now being accumulated began at
/// `token_start`, and the cursor is inside a variable reference iff
/// `reading_var`.
///
/// On a delimiter the pending token (if non-empty) is emitted, tagged by the
/// mode the delimiter closes; an empty token is suppressed. A space or `=`
/// inside a variable name ends the scan with `InvalidVariableName`. At the
/// end of the input, a still-open variable reference ends the scan with
/// `InvalidFormat`; otherwise the trailing literal (if non-empty) is the
/// last item.
pub open spec fn scan_from(s: Seq<char>, pos: int, token_start: int, reading_var: bool) -> Seq<
    ScanItem,
>
    recommends
        0 <= token_start <= pos <= s.len(),
    decreases s.len() - pos,
{
    if pos < 0 || pos >= s.len() {
        if reading_var {
            seq![ScanItem::Fail(ExpandableStrSplitError::InvalidFormat)]
        } else if 0 <= token_start < s.len() {
            seq![ScanItem::Seg(SegModel::Lit(s.subrange(token_start, s.len() as int)))]
        } else {
            Seq::empty()
        }
    } else if s[pos] == '%' {
        let token = s.subrange(token_start, pos);
        let rest = scan_from(s, pos + 1, pos + 1, !reading_var);
        if token.len() > 0 {
            if reading_var {
                seq![ScanItem::Seg(SegModel::Var(token))] + rest
            } else {
                seq![ScanItem::Seg(SegModel::Lit(token))] + rest
            }
        } else {
            rest
        }
    } else if reading_var && (s[pos] == ' ' || s[pos] == '=') {
        seq![ScanItem::Fail(ExpandableStrSplitError::InvalidVariableName)]
    } else {
        scan_from(s, pos + 1, token_start, reading_var)
    }
}

/// The full scan of a string, from a fresh scanner.
pub open spec fn scan_items(s: Seq<char>) -> Seq<ScanItem> {
    scan_from(s, 0, 0, false)
}

/// The segments among `items`, up to the first error if there is one.
pub open spec fn segs_of_items(items: Seq<ScanItem>) -> Seq<SegModel>
    decreases items.len(),
{
    if items.len() == 0 {
        Seq::empty()
    } else {
        match items[0] {
            ScanItem::Seg(sg) => seq![sg] + segs_of_items(items.drop_first()),
            ScanItem::Fail(_) => Seq::empty(),
        }
    }
}

/// The error among `items`, if the scan ends in one.
pub open spec fn error_of_items(items: Seq<ScanItem>) -> Option<ExpandableStrSplitError>
    decreases items.len(),
{
    if items.len() == 0 {
        None
    } else {
        match items[0] {
            ScanItem::Seg(_) => error_of_items(items.drop_first()),
            ScanItem::Fail(e) => Some(e),
        }
    }
}

/// The segments a scan of `s` yields.
pub open spec fn scan_segments(s: Seq<char>) -> Seq<SegModel> {
    segs_of_items(scan_items(s))
}

/// The error a scan of `s` ends in, if any.
pub open spec fn scan_error(s: Seq<char>) -> Option<ExpandableStrSplitError> {
    error_of_items(scan_items(s))
}

/// Whether the rest of the scan, from the given cursor state, runs to the
/// end of the input without an error and without suppressing an empty
/// variable name.
pub open spec fn ok_from(s: Seq<char>, pos: int, token_start: int, reading_var: bool) -> bool
    recommends
        0 <= token_start <= pos <= s.len(),
    decreases s.len() - pos,
{
    if pos < 0 || pos >= s.len() {
        !reading_var
    } else if s[pos] == '%' {
        if reading_var && token_start == pos {
            false
        } else {
            ok_from(s, pos + 1, pos + 1, !reading_var)
        }
    } else if reading_var && (s[pos] == ' ' || s[pos] == '=') {
        false
    } else {
        ok_from(s, pos + 1, token_start, reading_var)
    }
}

/// A string is well formed when every variable reference that opens is also
/// closed, no variable name holds a space or `=`, and no variable name is
/// empty.
pub open spec fn well_formed(s: Seq<char>) -> bool {
    ok_from(s, 0, 0, false)
}

/// The source text a segment stands for: a literal is its own text, a
/// variable name stands together with the two delimiters that enclosed it.
pub open spec fn seg_source(sg: SegModel) -> Seq<char> {
    match sg {
        SegModel::Lit(t) => t,
        SegModel::Var(v) => seq!['%'] + v + seq!['%'],
    }
}

/// The source text a sequence of segments stands for, in order.
pub open spec fn reconstruct(segs: Seq<SegModel>) -> Seq<char>
    decreases segs.len(),
{
    if segs.len() == 0 {
        Seq::empty()
    } else {
        seg_source(segs[0]) + reconstruct(segs.drop_first())
    }
}

/// The concatenation of a sequence of character sequences.
pub open spec fn concat_texts(vals: Seq<Seq<char>>) -> Seq<char>
    decreases vals.len(),
{
    if vals.len() == 0 {
        Seq::empty()
    } else {
        vals[0] + concat_texts(vals.drop_first())
    }
}

} // verus!
