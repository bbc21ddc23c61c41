//! Index-based array resolution: a set of requested positions against an
//! array value.

use vstd::prelude::*;
use vstd::string::StringExecFns;

use crate::display::sel_name;
use crate::messages::{index_oob_message, index_oob_msg, not_array_message, not_array_msg};
use crate::types::{
    clone_value, elements_model, lemma_elements_model, Selection, Selector, Value, ValueModel,
};

verus! {

/// The walker treats a step as the root step when the query has a single
/// selector or the step is the first one.
pub open spec fn walker_is_root(sel_count: nat, map_index: nat) -> bool {
    sel_count == 1 || map_index == 0
}

/// The context named by an out-of-bound message: the root element, or the
/// previous selector's display name.
pub open spec fn walker_reference(selectors: Seq<Selector>, map_index: int) -> Seq<char> {
    if walker_is_root(selectors.len(), map_index as nat) {
        "root element"@
    } else {
        sel_name(selectors[map_index - 1], false)
    }
}

/// Whether some requested position lies outside an array of length `len`.
pub open spec fn has_oob(idxs: Seq<usize>, len: nat) -> bool {
    exists|i: int| 0 <= i < idxs.len() && ((#[trigger] idxs[i]) as nat) >= len
}

/// The first requested position, in request order, outside an array of
/// length `len`.
pub open spec fn first_oob(idxs: Seq<usize>, len: nat) -> usize
    decreases idxs.len(),
{
    if idxs.len() == 0 {
        0
    } else if (idxs[0] as nat) >= len {
        idxs[0]
    } else {
        first_oob(idxs.drop_first(), len)
    }
}

/// When every position before `i` is in bounds and position `i` is not, the
/// first out-of-bound position is position `i`.
pub proof fn lemma_first_oob(idxs: Seq<usize>, len: nat, i: int)
    requires
        0 <= i < idxs.len(),
        forall|j: int| 0 <= j < i ==> ((#[trigger] idxs[j]) as nat) < len,
        (idxs[i] as nat) >= len,
    ensures
        has_oob(idxs, len),
        first_oob(idxs, len) == idxs[i],
    decreases i,
{
    if i == 0 {
    } else {
        lemma_first_oob(idxs.drop_first(), len, i - 1);
    }
}

/// What the array walker returns: the requested elements of an array (one
/// element when one position is requested, else an array of them in request
/// order), or the exact diagnostic for the first failure.
pub open spec fn spec_array_walker(
    idxs: Seq<usize>,
    v: ValueModel,
    map_index: int,
    selectors: Seq<Selector>,
) -> Result<ValueModel, Seq<char>> {
    match v {
        ValueModel::Arr(arr) => if has_oob(idxs, arr.len()) {
            Err(
                index_oob_msg(
                    first_oob(idxs, arr.len()) as nat,
                    walker_reference(selectors, map_index),
                    arr.len(),
                ),
            )
        } else if idxs.len() == 1 {
            Ok(arr[idxs[0] as int])
        } else {
            Ok(ValueModel::Arr(Seq::new(idxs.len(), |i: int| arr[idxs[i] as int])))
        },
        _ => Err(
            not_array_msg(
                if walker_is_root(selectors.len(), map_index as nat) {
                    "Root element"@
                } else {
                    sel_name(selectors[map_index - 1], true)
                },
            ),
        ),
    }
}

/// Resolves a set of integer positions against the current value.
///
/// Every requested position is resolved against the same array; the first
/// out-of-bound position in request order decides the error. A single
/// requested position yields the element itself, several yield an array of
/// the resolved elements in request order, duplicates preserved.
pub fn array_walker(
    array_indexes: &Vec<usize>,
    inner_json: &Value,
    map_index: usize,
    selectors: &Vec<Selector>,
) -> (r: Selection)
    requires
        walker_is_root(selectors@.len(), map_index as nat) || map_index - 1 < selectors@.len(),
    ensures
        (match r {
            Ok(v) => Ok::<ValueModel, Seq<char>>(v@),
            Err(e) => Err(e@),
        }) == spec_array_walker(array_indexes@, inner_json@, map_index as int, selectors@),
{
    let is_root = selectors.len() == 1 || map_index == 0;
    match inner_json {
        Value::Array(arr) => {
            proof {
                lemma_elements_model(arr@);
            }
            let ghost arr_model: Seq<ValueModel> = elements_model(arr@);
            let mut i: usize = 0;
            while i < array_indexes.len()
                invariant
                    *inner_json == Value::Array(*arr),
                    arr_model == elements_model(arr@),
                    is_root == walker_is_root(selectors@.len(), map_index as nat),
                    is_root || map_index - 1 < selectors@.len(),
                    i <= array_indexes.len(),
                    forall|j: int|
                        0 <= j < i ==> ((#[trigger] array_indexes@[j]) as nat) < arr@.len(),
                decreases array_indexes.len() - i,
            {
                if array_indexes[i] >= arr.len() {
                    proof {
                        lemma_first_oob(array_indexes@, arr@.len() as nat, i as int);
                        lemma_elements_model(arr@);
                    }
                    let reference: String = if is_root {
                        String::from_str("root element")
                    } else {
                        selectors[map_index - 1].as_str(false)
                    };
                    return Err(index_oob_message(array_indexes[i], reference.as_str(), arr.len()));
                }
                i += 1;
            }
            proof {
                lemma_elements_model(arr@);
            }
            if array_indexes.len() == 1 {
                Ok(clone_value(&arr[array_indexes[0]]))
            } else {
                let mut out: Vec<Value> = Vec::new();
                let mut j: usize = 0;
                while j < array_indexes.len()
                    invariant
                        *inner_json == Value::Array(*arr),
                        arr_model == elements_model(arr@),
                        arr_model.len() == arr@.len(),
                        forall|k: int| 0 <= k < arr@.len() ==> arr_model[k] == arr@[k]@,
                        forall|k: int|
                            0 <= k < array_indexes@.len() ==> ((
                            #[trigger] array_indexes@[k]) as nat) < arr@.len(),
                        j <= array_indexes.len(),
                        out@.len() == j,
                        forall|k: int|
                            0 <= k < j ==> (#[trigger] out@[k])@ == arr_model[array_indexes@[k] as int],
                    decreases array_indexes.len() - j,
                {
                    out.push(clone_value(&arr[array_indexes[j]]));
                    j += 1;
                }
                proof {
                    lemma_elements_model(out@);
                    assert(elements_model(out@) =~= Seq::new(
                        array_indexes@.len(),
                        |i: int| arr_model[array_indexes@[i] as int],
                    ));
                }
                Ok(Value::Array(out))
            }
        },
        _ => {
            let reference: String = if is_root {
                String::from_str("Root element")
            } else {
                selectors[map_index - 1].as_str(true)
            };
            Err(not_array_message(reference.as_str()))
        },
    }
}

} // verus!
