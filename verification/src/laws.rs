//! Laws of the scanner, proved against the mathematical model.

use vstd::prelude::*;

use crate::model::error_of_items;
use crate::model::ok_from;
use crate::model::reconstruct;
use crate::model::scan_error;
use crate::model::scan_from;
use crate::model::scan_items;
use crate::model::scan_segments;
use crate::model::seg_source;
use crate::model::segs_of_items;
use crate::model::well_formed;
use crate::segments::ScanItem;
use crate::segments::SegModel;
use crate::segments::seg_text;

verus! {

/// Whether a scan item carries non-empty text (errors carry none).
pub open spec fn item_nonempty(item: ScanItem) -> bool {
    match item {
        ScanItem::Seg(sg) => seg_text(sg).len() > 0,
        ScanItem::Fail(_) => true,
    }
}

proof fn lemma_items_empty()
    ensures
        segs_of_items(Seq::<ScanItem>::empty()) == Seq::<SegModel>::empty(),
        error_of_items(Seq::<ScanItem>::empty()) is None,
        reconstruct(Seq::<SegModel>::empty()) == Seq::<char>::empty(),
{
}

proof fn lemma_items_cons_seg(sg: SegModel, rest: Seq<ScanItem>)
    ensures
        segs_of_items(seq![ScanItem::Seg(sg)] + rest) == seq![sg] + segs_of_items(rest),
        error_of_items(seq![ScanItem::Seg(sg)] + rest) == error_of_items(rest),
{
    let items = seq![ScanItem::Seg(sg)] + rest;
    assert(items[0] == ScanItem::Seg(sg));
    assert(items.drop_first() =~= rest);
    assert(segs_of_items(items) =~= seq![sg] + segs_of_items(rest));
}

proof fn lemma_items_singleton_seg(sg: SegModel)
    ensures
        segs_of_items(seq![ScanItem::Seg(sg)]) == seq![sg],
        error_of_items(seq![ScanItem::Seg(sg)]) is None,
{
    lemma_items_empty();
    lemma_items_cons_seg(sg, Seq::<ScanItem>::empty());
    assert(seq![ScanItem::Seg(sg)] + Seq::<ScanItem>::empty() =~= seq![ScanItem::Seg(sg)]);
    assert(seq![sg] + Seq::<SegModel>::empty() =~= seq![sg]);
}

proof fn lemma_reconstruct_cons(sg: SegModel, rest: Seq<SegModel>)
    ensures
        reconstruct(seq![sg] + rest) == seg_source(sg) + reconstruct(rest),
{
    let segs = seq![sg] + rest;
    assert(segs[0] == sg);
    assert(segs.drop_first() =~= rest);
}

proof fn lemma_scan_from_nonempty(s: Seq<char>, pos: int, ts: int, rv: bool)
    requires
        0 <= ts <= pos <= s.len(),
    ensures
        forall|i: int|
            0 <= i < scan_from(s, pos, ts, rv).len() ==> item_nonempty(
                #[trigger] scan_from(s, pos, ts, rv)[i],
            ),
    decreases s.len() - pos,
{
    let items = scan_from(s, pos, ts, rv);
    if pos >= s.len() {
    } else if s[pos] == '%' {
        lemma_scan_from_nonempty(s, pos + 1, pos + 1, !rv);
        let rest = scan_from(s, pos + 1, pos + 1, !rv);
        let token = s.subrange(ts, pos);
        if token.len() > 0 {
            assert forall|i: int| 0 <= i < items.len() implies item_nonempty(items[i]) by {
                if i > 0 {
                    assert(items[i] == rest[i - 1]);
                }
            }
        } else {
            assert forall|i: int| 0 <= i < items.len() implies item_nonempty(items[i]) by {
                assert(items[i] == rest[i]);
            }
        }
    } else if rv && (s[pos] == ' ' || s[pos] == '=') {
    } else {
        lemma_scan_from_nonempty(s, pos + 1, ts, rv);
        let rest = scan_from(s, pos + 1, ts, rv);
        assert forall|i: int| 0 <= i < items.len() implies item_nonempty(items[i]) by {
            assert(items[i] == rest[i]);
        }
    }
}

proof fn lemma_segs_of_items_nonempty(items: Seq<ScanItem>)
    requires
        forall|i: int| 0 <= i < items.len() ==> item_nonempty(#[trigger] items[i]),
    ensures
        forall|i: int|
            0 <= i < segs_of_items(items).len() ==> seg_text(
                #[trigger] segs_of_items(items)[i],
            ).len() > 0,
    decreases items.len(),
{
    if items.len() == 0 {
    } else {
        match items[0] {
            ScanItem::Seg(sg) => {
                let rest = items.drop_first();
                assert forall|i: int| 0 <= i < rest.len() implies item_nonempty(rest[i]) by {
                    assert(rest[i] == items[i + 1]);
                }
                lemma_segs_of_items_nonempty(rest);
                let segs = segs_of_items(items);
                assert(segs == seq![sg] + segs_of_items(rest));
                assert(item_nonempty(items[0]));
                assert forall|i: int| 0 <= i < segs.len() implies seg_text(segs[i]).len() > 0 by {
                    if i > 0 {
                        assert(segs[i] == segs_of_items(rest)[i - 1]);
                    }
                }
            },
            ScanItem::Fail(_) => {},
        }
    }
}

/// No segment a scan yields is empty: neither a literal nor a variable name.
pub proof fn lemma_scan_segments_nonempty(s: Seq<char>)
    ensures
        forall|i: int|
            0 <= i < scan_segments(s).len() ==> seg_text(#[trigger] scan_segments(s)[i]).len() > 0,
{
    lemma_scan_from_nonempty(s, 0, 0, false);
    lemma_segs_of_items_nonempty(scan_items(s));
}

proof fn lemma_scan_from_no_delimiter(s: Seq<char>, pos: int, ts: int)
    requires
        0 <= ts <= pos <= s.len(),
        forall|i: int| pos <= i < s.len() ==> s[i] != '%',
    ensures
        scan_from(s, pos, ts, false) == if ts < s.len() {
            seq![ScanItem::Seg(SegModel::Lit(s.subrange(ts, s.len() as int)))]
        } else {
            Seq::<ScanItem>::empty()
        },
    decreases s.len() - pos,
{
    if pos >= s.len() {
    } else {
        lemma_scan_from_no_delimiter(s, pos + 1, ts);
    }
}

/// Scanning a string without the delimiter character yields no error, and
/// exactly one literal segment holding the whole string — or no segment at
/// all when the string is empty.
pub proof fn lemma_scan_without_delimiter(s: Seq<char>)
    requires
        forall|i: int| 0 <= i < s.len() ==> s[i] != '%',
    ensures
        s.len() == 0 ==> scan_segments(s) == Seq::<SegModel>::empty(),
        s.len() > 0 ==> scan_segments(s) == seq![SegModel::Lit(s)],
        scan_error(s) is None,
{
    lemma_scan_from_no_delimiter(s, 0, 0);
    lemma_items_empty();
    if s.len() > 0 {
        assert(s.subrange(0, s.len() as int) =~= s);
        lemma_items_singleton_seg(SegModel::Lit(s));
    }
}

proof fn lemma_round_trip_from(s: Seq<char>, pos: int, ts: int, rv: bool)
    requires
        0 <= ts <= pos <= s.len(),
        rv ==> ts >= 1 && s[ts - 1] == '%',
        ok_from(s, pos, ts, rv),
    ensures
        error_of_items(scan_from(s, pos, ts, rv)) is None,
        reconstruct(segs_of_items(scan_from(s, pos, ts, rv))) == s.subrange(
            if rv {
                ts - 1
            } else {
                ts
            },
            s.len() as int,
        ),
    decreases s.len() - pos,
{
    let items = scan_from(s, pos, ts, rv);
    if pos >= s.len() {
        lemma_items_empty();
        if ts < s.len() {
            let lit = SegModel::Lit(s.subrange(ts, s.len() as int));
            lemma_items_singleton_seg(lit);
            lemma_reconstruct_cons(lit, Seq::<SegModel>::empty());
            assert(seq![lit] + Seq::<SegModel>::empty() =~= seq![lit]);
            assert(seg_source(lit) + Seq::<char>::empty() =~= s.subrange(ts, s.len() as int));
        } else {
            assert(s.subrange(ts, s.len() as int) =~= Seq::<char>::empty());
        }
    } else if s[pos] == '%' {
        let token = s.subrange(ts, pos);
        let rest = scan_from(s, pos + 1, pos + 1, !rv);
        lemma_round_trip_from(s, pos + 1, pos + 1, !rv);
        if token.len() > 0 {
            let sg = if rv {
                SegModel::Var(token)
            } else {
                SegModel::Lit(token)
            };
            assert(items == seq![ScanItem::Seg(sg)] + rest);
            lemma_items_cons_seg(sg, rest);
            lemma_reconstruct_cons(sg, segs_of_items(rest));
            if rv {
                assert(seg_source(sg) + s.subrange(pos + 1, s.len() as int) =~= s.subrange(
                    ts - 1,
                    s.len() as int,
                ));
            } else {
                assert(seg_source(sg) + s.subrange(pos, s.len() as int) =~= s.subrange(
                    ts,
                    s.len() as int,
                ));
            }
        } else {
            assert(ts == pos);
            assert(!rv);
        }
    } else if rv && (s[pos] == ' ' || s[pos] == '=') {
        assert(false);
    } else {
        lemma_round_trip_from(s, pos + 1, ts, rv);
    }
}

/// Round trip: scanning a well-formed string yields no error, and writing
/// the segments back — each variable name between its two delimiters —
/// reconstructs the string exactly.
pub proof fn lemma_scan_round_trip(s: Seq<char>)
    requires
        well_formed(s),
    ensures
        scan_error(s) is None,
        reconstruct(scan_segments(s)) == s,
{
    lemma_round_trip_from(s, 0, 0, false);
    assert(s.subrange(0, s.len() as int) =~= s);
}

} // verus!
