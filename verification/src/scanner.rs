//! The scanner: a lazy, single-pass tokenizer over a borrowed source string.

use vstd::prelude::*;

use crate::model::scan_from;
use crate::model::scan_items;
use crate::segments::ExpandableStrEntry;
use crate::segments::ExpandableStrSplitError;
use crate::segments::ExpandableStrSplitResult;
use crate::segments::ScanItem;
use crate::segments::SegModel;
use crate::segments::item_model;

verus! {

/// A scan in progress. `pos` is the character index the cursor stands at,
/// `token_start` the character index where the token now being accumulated
/// began, `reading_var` whether the cursor is inside a variable reference,
/// and `done` whether the scan has terminated; a terminated scanner never
/// yields another item.
pub struct ExpandableStringSplit<'a> {
    pub src: &'a str,
    pub pos: usize,
    pub token_start: usize,
    pub reading_var: bool,
    pub done: bool,
}

impl<'a> ExpandableStringSplit<'a> {
    /// The cursor state is consistent: indices stand within the source.
    pub open spec fn wf(self) -> bool {
        self.token_start <= self.pos <= self.src@.len()
    }

    /// The items this scanner will still yield, in order.
    pub open spec fn remaining(self) -> Seq<ScanItem> {
        if self.done {
            Seq::empty()
        } else {
            scan_from(self.src@, self.pos as int, self.token_start as int, self.reading_var)
        }
    }

    /// One pull on the scanner: the head of `remaining()` as a borrowed
    /// segment or a terminal error, or `None` once the scan is exhausted.
    #[verifier::loop_isolation(false)]
    pub fn next(&mut self) -> (r: Option<ExpandableStrSplitResult<'a>>)
        requires
            old(self).wf(),
        ensures
            final(self).wf(),
            final(self).src == old(self).src,
            (match r {
                None => old(self).remaining().len() == 0 && final(self).remaining().len() == 0,
                Some(item) => {
                    &&& old(self).remaining().len() > 0
                    &&& item_model(item) == old(self).remaining()[0]
                    &&& final(self).remaining() == old(self).remaining().drop_first()
                },
            }),
    {
        if self.done {
            return None;
        }
        let src = self.src;
        let n = src.unicode_len();
        while self.pos < n
            invariant
                self.src == old(self).src,
                n == src@.len(),
                !self.done,
                self.wf(),
                scan_from(src@, self.pos as int, self.token_start as int, self.reading_var)
                    == old(self).remaining(),
            decreases n - self.pos,
        {
            let ghost pre = *self;
            let c = src.get_char(self.pos);
            if c == '%' {
                let was_reading_var = self.reading_var;
                self.reading_var = !was_reading_var;
                let token_end = self.pos;
                self.pos = self.pos + 1;
                if self.token_start < token_end {
                    let token_slice = src.substring_char(self.token_start, token_end);
                    self.token_start = self.pos;
                    proof {
                        let head = if was_reading_var {
                            ScanItem::Seg(SegModel::Var(token_slice@))
                        } else {
                            ScanItem::Seg(SegModel::Lit(token_slice@))
                        };
                        assert(pre.remaining() == seq![head] + self.remaining());
                        assert(self.remaining() =~= pre.remaining().drop_first());
                    }
                    if was_reading_var {
                        return Some(Ok(ExpandableStrEntry::Var(token_slice)));
                    } else {
                        return Some(Ok(ExpandableStrEntry::Substr(token_slice)));
                    }
                } else {
                    self.token_start = self.pos;
                    proof {
                        assert(pre.remaining() == self.remaining());
                    }
                }
            } else if self.reading_var && (c == ' ' || c == '=') {
                self.done = true;
                proof {
                    let head = ScanItem::Fail(ExpandableStrSplitError::InvalidVariableName);
                    assert(pre.remaining() == seq![head]);
                    assert(self.remaining() =~= pre.remaining().drop_first());
                }
                return Some(Err(ExpandableStrSplitError::InvalidVariableName));
            } else {
                self.pos = self.pos + 1;
                proof {
                    assert(pre.remaining() == self.remaining());
                }
            }
        }
        self.done = true;
        if !self.reading_var {
            if self.token_start < n {
                let token_slice = src.substring_char(self.token_start, n);
                proof {
                    let head = ScanItem::Seg(SegModel::Lit(token_slice@));
                    assert(old(self).remaining() == seq![head]);
                    assert(self.remaining() =~= old(self).remaining().drop_first());
                }
                self.token_start = n;
                Some(Ok(ExpandableStrEntry::Substr(token_slice)))
            } else {
                None
            }
        } else {
            proof {
                let head = ScanItem::Fail(ExpandableStrSplitError::InvalidFormat);
                assert(old(self).remaining() == seq![head]);
                assert(self.remaining() =~= old(self).remaining().drop_first());
            }
            Some(Err(ExpandableStrSplitError::InvalidFormat))
        }
    }
}

/// A fresh scanner over `s`, which will yield exactly the items of the
/// mathematical scan of `s`.
pub fn split_expandable_string(s: &str) -> (r: ExpandableStringSplit<'_>)
    ensures
        r.wf(),
        r.src == s,
        r.remaining() == scan_items(s@),
{
    ExpandableStringSplit { src: s, pos: 0, token_start: 0, reading_var: false, done: false }
}

} // verus!
