//! The expander: drives the scanner over a source string and substitutes
//! each variable segment with the value a caller-supplied lookup yields.

use vstd::prelude::*;

use crate::model::concat_texts;
use crate::model::error_of_items;
use crate::model::scan_error;
use crate::model::scan_segments;
use crate::model::segs_of_items;
use crate::scanner::split_expandable_string;
use crate::segments::ExpandableStrEntry;
use crate::segments::ExpandableStrSplitError;
use crate::segments::SegModel;

verus! {

/// A source of named values, for callers that back the lookup with a fixed
/// mapping or a layered configuration rather than a closure.
pub trait NamedValuesSource {
    fn get<'a>(&'a self, key: &str) -> Option<&'a str>;
}

/// The ways an expansion can fail: a scan error carried through unchanged,
/// or a variable whose lookup yielded nothing, reported by name.
#[derive(Debug, PartialEq, Eq)]
pub enum ExpandStringError<'a> {
    InvalidFormat,
    InvalidVariableName,
    MissingVariable(&'a str),
}

impl<'a> From<ExpandableStrSplitError> for ExpandStringError<'a> {
    fn from(src: ExpandableStrSplitError) -> (r: Self) {
        match src {
            ExpandableStrSplitError::InvalidFormat => Self::InvalidFormat,
            ExpandableStrSplitError::InvalidVariableName => Self::InvalidVariableName,
        }
    }
}

impl<'a> vstd::std_specs::convert::FromSpecImpl<ExpandableStrSplitError> for ExpandStringError<'a> {
    open spec fn obeys_from_spec() -> bool {
        true
    }

    open spec fn from_spec(src: ExpandableStrSplitError) -> Self {
        match src {
            ExpandableStrSplitError::InvalidFormat => ExpandStringError::InvalidFormat,
            ExpandableStrSplitError::InvalidVariableName => ExpandStringError::InvalidVariableName,
        }
    }
}

/// Whether `val` is a value the lookup `f` can yield for `name`, going by
/// the lookup's own contract (`None` when it can yield nothing).
pub open spec fn lookup_gives<F: Fn(&str) -> Option<String>>(
    f: F,
    name: Seq<char>,
    val: Option<Seq<char>>,
) -> bool {
    exists|arg: &str, out: Option<String>|
        {
            &&& arg@ == name
            &&& #[trigger] call_ensures(f, (arg,), out)
            &&& val == (match out {
                Option::None => Option::<Seq<char>>::None,
                Option::Some(v) => Option::Some(v@),
            })
        }
}

/// Whether `val` is a correct expansion of segment `sg` under lookup `f`:
/// a literal expands to its own text, a variable to a looked-up value.
pub open spec fn seg_val_ok<F: Fn(&str) -> Option<String>>(
    f: F,
    sg: SegModel,
    val: Seq<char>,
) -> bool {
    match sg {
        SegModel::Lit(t) => val == t,
        SegModel::Var(v) => lookup_gives(f, v, Some(val)),
    }
}

/// Whether `vals` expands the first `vals.len()` segments of `segs`, one
/// value per segment, under lookup `f`.
pub open spec fn resolves_prefix<F: Fn(&str) -> Option<String>>(
    f: F,
    segs: Seq<SegModel>,
    vals: Seq<Seq<char>>,
) -> bool {
    &&& vals.len() <= segs.len()
    &&& forall|j: int| 0 <= j < vals.len() ==> seg_val_ok(f, segs[j], #[trigger] vals[j])
}

proof fn lemma_concat_texts_push(vals: Seq<Seq<char>>, v: Seq<char>)
    ensures
        concat_texts(vals.push(v)) == concat_texts(vals) + v,
    decreases vals.len(),
{
    if vals.len() == 0 {
        assert(vals.push(v)[0] == v);
        assert(vals.push(v).drop_first() =~= Seq::<Seq<char>>::empty());
        assert(concat_texts(Seq::<Seq<char>>::empty()) == Seq::<char>::empty());
        assert(v + Seq::<char>::empty() =~= v);
        assert(Seq::<char>::empty() + v =~= v);
    } else {
        assert(vals.push(v)[0] == vals[0]);
        assert(vals.push(v).drop_first() =~= vals.drop_first().push(v));
        lemma_concat_texts_push(vals.drop_first(), v);
        assert((vals[0] + concat_texts(vals.drop_first())) + v =~= vals[0] + (concat_texts(
            vals.drop_first(),
        ) + v));
    }
}

/// Expand `s`: drive a scan to its end, copy each literal to the output,
/// and substitute each variable with the value `get_value` yields for its
/// name. The first failure wins and no partial output is returned: a
/// variable whose lookup yields nothing is reported by name, and a scan
/// error is carried through unchanged — by then every segment before it
/// has been resolved, since the scanner yields an error only last.
pub fn expand_string_with_values<'a, F: Fn(&str) -> Option<String>>(s: &'a str, get_value: F) -> (r:
    Result<String, ExpandStringError<'a>>)
    requires
        forall|name: &str| call_requires(get_value, (name,)),
    ensures
        (match r {
            Ok(out) => {
                &&& scan_error(s@) is None
                &&& exists|vals: Seq<Seq<char>>|
                    {
                        &&& #[trigger] resolves_prefix(get_value, scan_segments(s@), vals)
                        &&& vals.len() == scan_segments(s@).len()
                        &&& out@ == concat_texts(vals)
                    }
            },
            Err(e) => match e {
                ExpandStringError::InvalidFormat => {
                    &&& scan_error(s@) == Some(ExpandableStrSplitError::InvalidFormat)
                    &&& exists|vals: Seq<Seq<char>>|
                        {
                            &&& #[trigger] resolves_prefix(get_value, scan_segments(s@), vals)
                            &&& vals.len() == scan_segments(s@).len()
                        }
                },
                ExpandStringError::InvalidVariableName => {
                    &&& scan_error(s@) == Some(ExpandableStrSplitError::InvalidVariableName)
                    &&& exists|vals: Seq<Seq<char>>|
                        {
                            &&& #[trigger] resolves_prefix(get_value, scan_segments(s@), vals)
                            &&& vals.len() == scan_segments(s@).len()
                        }
                },
                ExpandStringError::MissingVariable(name) => exists|vals: Seq<Seq<char>>|
                    {
                        &&& #[trigger] resolves_prefix(get_value, scan_segments(s@), vals)
                        &&& vals.len() < scan_segments(s@).len()
                        &&& scan_segments(s@)[vals.len() as int] == SegModel::Var(name@)
                        &&& lookup_gives(get_value, name@, None)
                    },
            },
        }),
{
    let ghost segs_all = scan_segments(s@);
    let mut scanner = split_expandable_string(s);
    let mut expanded = String::new();
    let ghost mut vals: Seq<Seq<char>> = Seq::empty();
    proof {
        assert(segs_of_items(scanner.remaining()) =~= segs_all.skip(0));
        assert(concat_texts(vals) == Seq::<char>::empty());
    }
    #[verifier::loop_isolation(false)]
    loop
        invariant
            scanner.wf(),
            scanner.src == s,
            vals.len() <= segs_all.len(),
            segs_of_items(scanner.remaining()) == segs_all.skip(vals.len() as int),
            error_of_items(scanner.remaining()) == scan_error(s@),
            resolves_prefix(get_value, segs_all, vals),
            expanded@ == concat_texts(vals),
        decreases scanner.remaining().len(),
    {
        let ghost rem_pre = scanner.remaining();
        match scanner.next() {
            None => {
                proof {
                    assert(segs_all.skip(vals.len() as int).len() == 0);
                    assert(vals.len() == segs_all.len());
                }
                return Ok(expanded);
            },
            Some(entry) => {
                match entry {
                    Ok(ExpandableStrEntry::Substr(t)) => {
                        expanded.append(t);
                        proof {
                            let k = vals.len() as int;
                            let rem_post = scanner.remaining();
                            assert(segs_of_items(rem_pre) == seq![SegModel::Lit(t@)]
                                + segs_of_items(rem_post));
                            assert(segs_all.skip(k)[0] == SegModel::Lit(t@));
                            assert(segs_all[k] == SegModel::Lit(t@));
                            assert forall|i: int|
                                0 <= i < segs_of_items(rem_post).len() implies segs_of_items(
                                rem_post,
                            )[i] == segs_all.skip(k + 1)[i] by {
                                assert(segs_of_items(rem_post)[i] == segs_all.skip(k)[i + 1]);
                            }
                            assert(segs_of_items(rem_post) =~= segs_all.skip(k + 1));
                            lemma_concat_texts_push(vals, t@);
                            let vals2 = vals.push(t@);
                            assert forall|j: int|
                                0 <= j < vals2.len() implies seg_val_ok(
                                get_value,
                                segs_all[j],
                                vals2[j],
                            ) by {
                                if j < k {
                                    assert(vals2[j] == vals[j]);
                                    assert(seg_val_ok(get_value, segs_all[j], vals[j]));
                                }
                            }
                            vals = vals2;
                            assert(segs_of_items(scanner.remaining()) =~= segs_all.skip(
                                vals.len() as int,
                            ));
                        }
                    },
                    Ok(ExpandableStrEntry::Var(id)) => {
                        proof {
                            let k = vals.len() as int;
                            assert(segs_of_items(rem_pre) == seq![SegModel::Var(id@)]
                                + segs_of_items(rem_pre.drop_first()));
                            assert(segs_all.skip(k)[0] == SegModel::Var(id@));
                            assert(segs_all[k] == SegModel::Var(id@));
                        }
                        let looked_up = get_value(id);
                        match looked_up {
                            None => {
                                proof {
                                    assert(lookup_gives(get_value, id@, None));
                                }
                                return Err(ExpandStringError::MissingVariable(id));
                            },
                            Some(value) => {
                                expanded.append(value.as_str());
                                proof {
                                    let k = vals.len() as int;
                                    let rem_post = scanner.remaining();
                                    assert(segs_of_items(rem_pre) == seq![SegModel::Var(id@)]
                                        + segs_of_items(rem_post));
                                    assert forall|i: int|
                                        0 <= i < segs_of_items(rem_post).len() implies segs_of_items(
                                        rem_post,
                                    )[i] == segs_all.skip(k + 1)[i] by {
                                        assert(segs_of_items(rem_post)[i] == segs_all.skip(k)[i
                                            + 1]);
                                    }
                                    assert(segs_of_items(rem_post) =~= segs_all.skip(k + 1));
                                    assert(lookup_gives(get_value, id@, Some(value@)));
                                    lemma_concat_texts_push(vals, value@);
                                    let vals2 = vals.push(value@);
                                    assert forall|j: int|
                                        0 <= j < vals2.len() implies seg_val_ok(
                                        get_value,
                                        segs_all[j],
                                        vals2[j],
                                    ) by {
                                        if j < k {
                                            assert(vals2[j] == vals[j]);
                                            assert(seg_val_ok(get_value, segs_all[j], vals[j]));
                                        }
                                    }
                                    vals = vals2;
                                    assert(segs_of_items(scanner.remaining()) =~= segs_all.skip(
                                        vals.len() as int,
                                    ));
                                }
                            },
                        }
                    },
                    Err(e) => {
                        proof {
                            assert(segs_of_items(rem_pre) == Seq::<SegModel>::empty());
                            assert(segs_all.skip(vals.len() as int).len() == 0);
                            assert(vals.len() == segs_all.len());
                        }
                        return Err(ExpandStringError::from(e));
                    },
                }
            },
        }
    }
}

} // verus!
