//! Contiguous-range array resolution: a possibly reversed span of array
//! positions against an array value.

use vstd::prelude::*;
use vstd::string::StringExecFns;

use crate::display::sel_name;
use crate::messages::{not_array_message, not_array_msg, range_oob_message, range_oob_msg};
use crate::types::{
    clone_value, elements_model, lemma_elements_model, Selection, Selector, Value, ValueModel,
};

verus! {

/// The span named by resolved bounds `start` and `end`: ascending from
/// `start` to `end` when `start < end`, else descending from `start` down to
/// `end` (a reversed range selects backwards; equal bounds select one
/// position).
pub open spec fn span(start: int, end: int) -> Seq<int> {
    if start < end {
        Seq::new((end - start + 1) as nat, |i: int| start + i)
    } else {
        Seq::new((start - end + 1) as nat, |i: int| start - i)
    }
}

/// The resolved start bound: an absent start means the first position.
pub open spec fn resolved_start(start: Option<usize>) -> int {
    match start {
        Option::None => 0,
        Option::Some(s) => s as int,
    }
}

/// The resolved end bound: an absent end means the last position.
pub open spec fn resolved_end(end: Option<usize>, len: nat) -> int {
    match end {
        Option::None => if len == 0 {
            0
        } else {
            len - 1
        },
        Option::Some(e) => e as int,
    }
}

/// The context named by a range message: the root element, or the previous
/// selector's display name.
pub open spec fn range_reference(previous: Option<Selector>) -> Seq<char> {
    match previous {
        Option::None => "root element"@,
        Option::Some(p) => sel_name(p, false),
    }
}

/// What the range extractor returns: the span of elements of an array (one
/// element when the span has one position, else an array of them in span
/// order), or the exact diagnostic.
pub open spec fn spec_range_selector(
    start: Option<usize>,
    end: Option<usize>,
    v: ValueModel,
    previous: Option<Selector>,
) -> Result<ValueModel, Seq<char>> {
    match v {
        ValueModel::Arr(arr) => {
            let s = resolved_start(start);
            let e = resolved_end(end, arr.len());
            if arr.len() == 0 || s >= arr.len() || e >= arr.len() {
                Err(range_oob_msg(s as nat, e as nat, range_reference(previous), arr.len()))
            } else {
                let sp = span(s, e);
                if sp.len() == 1 {
                    Ok(arr[sp[0]])
                } else {
                    Ok(ValueModel::Arr(Seq::new(sp.len(), |i: int| arr[sp[i]])))
                }
            }
        },
        _ => Err(
            not_array_msg(
                match previous {
                    Option::None => "Root element"@,
                    Option::Some(p) => sel_name(p, true),
                },
            ),
        ),
    }
}

/// The previous selector as a spec value.
pub open spec fn previous_model(previous: Option<&Selector>) -> Option<Selector> {
    match previous {
        Option::None => Option::None,
        Option::Some(p) => Option::Some(*p),
    }
}

/// Resolves a contiguous, possibly reversed, span of array positions against
/// the current value.
///
/// A missing start defaults to the first position, a missing end to the last;
/// a start greater than the end selects backwards. Both resolved bounds must
/// lie inside the array.
pub fn range_selector(
    start: Option<usize>,
    end: Option<usize>,
    inner_json: &Value,
    previous_selector: Option<&Selector>,
) -> (r: Selection)
    ensures
        (match r {
            Ok(v) => Ok::<ValueModel, Seq<char>>(v@),
            Err(e) => Err(e@),
        }) == spec_range_selector(start, end, inner_json@, previous_model(previous_selector)),
{
    match inner_json {
        Value::Array(arr) => {
            proof {
                lemma_elements_model(arr@);
            }
            let ghost arr_model: Seq<ValueModel> = elements_model(arr@);
            let len = arr.len();
            let s = match start {
                Option::Some(s) => s,
                Option::None => 0,
            };
            let e = match end {
                Option::Some(e) => e,
                Option::None => if len == 0 {
                    0
                } else {
                    len - 1
                },
            };
            if len == 0 || s >= len || e >= len {
                let reference: String = match previous_selector {
                    Option::None => String::from_str("root element"),
                    Option::Some(p) => p.as_str(false),
                };
                return Err(range_oob_message(s, e, reference.as_str(), len));
            }
            let ghost sp: Seq<int> = span(s as int, e as int);
            let count: usize = if s < e {
                e - s + 1
            } else {
                s - e + 1
            };
            let ascending = s < e;
            let mut positions: Vec<usize> = Vec::new();
            let mut i: usize = 0;
            while i < count
                invariant
                    s < len <= usize::MAX,
                    e < len,
                    sp == span(s as int, e as int),
                    count == sp.len(),
                    ascending == (s < e),
                    ascending ==> count == e - s + 1,
                    !ascending ==> count == s - e + 1,
                    i <= count,
                    positions@.len() == i,
                    forall|j: int| 0 <= j < i ==> #[trigger] positions@[j] as int == sp[j],
                decreases count - i,
            {
                if ascending {
                    positions.push(s + i);
                } else {
                    positions.push(s - i);
                }
                i += 1;
            }
            if positions.len() == 1 {
                proof {
                    assert(sp[0] == s as int);
                }
                Ok(clone_value(&arr[positions[0]]))
            } else {
                let mut out: Vec<Value> = Vec::new();
                let mut j: usize = 0;
                while j < positions.len()
                    invariant
                        *inner_json == Value::Array(*arr),
                        arr_model == elements_model(arr@),
                        arr_model.len() == arr@.len(),
                        forall|k: int| 0 <= k < arr@.len() ==> arr_model[k] == arr@[k]@,
                        sp.len() == positions@.len(),
                        forall|k: int|
                            0 <= k < positions@.len() ==> #[trigger] positions@[k] as int == sp[k],
                        forall|k: int|
                            0 <= k < positions@.len() ==> 0 <= #[trigger] sp[k] < arr@.len(),
                        j <= positions.len(),
                        out@.len() == j,
                        forall|k: int| 0 <= k < j ==> (#[trigger] out@[k])@ == arr_model[sp[k]],
                    decreases positions.len() - j,
                {
                    out.push(clone_value(&arr[positions[j]]));
                    j += 1;
                }
                proof {
                    lemma_elements_model(out@);
                    assert(elements_model(out@) =~= Seq::new(sp.len(), |i: int| arr_model[sp[i]]));
                }
                Ok(Value::Array(out))
            }
        },
        _ => {
            let reference: String = match previous_selector {
                Option::None => String::from_str("Root element"),
                Option::Some(p) => p.as_str(true),
            };
            Err(not_array_message(reference.as_str()))
        },
    }
}

} // verus!
