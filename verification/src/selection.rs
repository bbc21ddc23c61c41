//! The selection engine: key lookup, object projection, and the selector
//! pipeline that threads a current value through a query left to right.

use vstd::prelude::*;

use crate::display::{dec_str, sel_name, usize_to_string};
use crate::messages::{
    key_not_found_message, key_not_found_msg, key_not_found_root_msg, property_index_oob_message,
    property_index_oob_msg, property_range_oob_message, property_range_oob_msg,
};
use crate::range::{range_selector, resolved_end, resolved_start, span, spec_range_selector};
use crate::types::{
    clone_value, lemma_properties_model, properties_model, values_model, InnerInstruction,
    Selection, Selections, Selector, Value, ValueModel,
};
use crate::walker::{array_walker, has_oob, spec_array_walker};

verus! {

/// The value of the first property with the given key, if any.
pub open spec fn key_lookup(props: Seq<(Seq<char>, ValueModel)>, key: Seq<char>) -> Option<
    ValueModel,
>
    decreases props.len(),
{
    if props.len() == 0 {
        Option::None
    } else if props[0].0 == key {
        Option::Some(props[0].1)
    } else {
        key_lookup(props.drop_first(), key)
    }
}

/// When the properties before `i` miss the key and property `i` carries it,
/// the lookup returns property `i`'s value.
pub proof fn lemma_key_lookup_found(props: Seq<(Seq<char>, ValueModel)>, key: Seq<char>, i: int)
    requires
        0 <= i < props.len(),
        forall|j: int| 0 <= j < i ==> (#[trigger] props[j]).0 != key,
        props[i].0 == key,
    ensures
        key_lookup(props, key) == Option::Some(props[i].1),
    decreases i,
{
    if i > 0 {
        lemma_key_lookup_found(props.drop_first(), key, i - 1);
    }
}

/// When no property carries the key, the lookup returns nothing.
pub proof fn lemma_key_lookup_none(props: Seq<(Seq<char>, ValueModel)>, key: Seq<char>)
    requires
        forall|j: int| 0 <= j < props.len() ==> (#[trigger] props[j]).0 != key,
    ensures
        key_lookup(props, key) == Option::None::<ValueModel>,
    decreases props.len(),
{
    if props.len() > 0 {
        lemma_key_lookup_none(props.drop_first(), key);
    }
}

/// The missing-key diagnostic for a step: the parent element at the root
/// step, the previous selector's name afterwards.
pub open spec fn key_err_msg(key: Seq<char>, map_index: int, selectors: Seq<Selector>) -> Seq<
    char,
> {
    if map_index == 0 {
        key_not_found_root_msg(key)
    } else {
        key_not_found_msg(key, sel_name(selectors[map_index - 1], false))
    }
}

/// What a single key lookup returns: the named property's value of an
/// object, or the exact missing-key diagnostic (a non-object has no
/// properties, so the lookup misses).
pub open spec fn spec_apply_selector(
    v: ValueModel,
    map_index: int,
    key: Seq<char>,
    selectors: Seq<Selector>,
) -> Result<ValueModel, Seq<char>> {
    match v {
        ValueModel::Obj(props) => match key_lookup(props, key) {
            Option::Some(val) => Ok(val),
            Option::None => Err(key_err_msg(key, map_index, selectors)),
        },
        _ => Err(key_err_msg(key, map_index, selectors)),
    }
}

/// Looks one named property up on the current value.
pub fn apply_selector(
    inner_json: &Value,
    map_index: usize,
    raw_selector: &String,
    selectors: &Vec<Selector>,
) -> (r: Selection)
    requires
        map_index == 0 || map_index - 1 < selectors@.len(),
    ensures
        (match r {
            Ok(v) => Ok::<ValueModel, Seq<char>>(v@),
            Err(e) => Err(e@),
        }) == spec_apply_selector(
            inner_json@,
            map_index as int,
            raw_selector@,
            selectors@,
        ),
{
    match inner_json {
        Value::Object(props) => {
            proof {
                lemma_properties_model(props@);
            }
            let ghost props_m: Seq<(Seq<char>, ValueModel)> = properties_model(props@);
            let mut i: usize = 0;
            while i < props.len()
                invariant
                    *inner_json == Value::Object(*props),
                    props_m == properties_model(props@),
                    props_m.len() == props@.len(),
                    forall|k: int|
                        0 <= k < props@.len() ==> #[trigger] props_m[k] == (
                        props@[k].0@,
                        props@[k].1@,
                    ),
                    i <= props.len(),
                    forall|j: int| 0 <= j < i ==> (#[trigger] props_m[j]).0 != raw_selector@,
                decreases props.len() - i,
            {
                if props[i].0.eq(raw_selector) {
                    proof {
                        lemma_key_lookup_found(props_m, raw_selector@, i as int);
                    }
                    return Ok(clone_value(&props[i].1));
                }
                i += 1;
            }
            proof {
                lemma_key_lookup_none(props_m, raw_selector@);
            }
            let previous: Option<String> = if map_index == 0 {
                Option::None
            } else {
                Option::Some(selectors[map_index - 1].as_str(false))
            };
            Err(key_not_found_message(raw_selector.as_str(), previous.as_ref()))
        },
        _ => {
            let previous: Option<String> = if map_index == 0 {
                Option::None
            } else {
                Option::Some(selectors[map_index - 1].as_str(false))
            };
            Err(key_not_found_message(raw_selector.as_str(), previous.as_ref()))
        },
    }
}

/// The properties of the current object, as an owned list of key/value
/// pairs in insertion order.
pub fn object_to_vec(inner_json: &Value) -> (r: Vec<(String, Value)>)
    requires
        inner_json@ is Obj,
    ensures
        properties_model(r@) == inner_json@->Obj_0,
{
    match inner_json {
        Value::Object(props) => {
            let mut out: Vec<(String, Value)> = Vec::new();
            let mut i: usize = 0;
            while i < props.len()
                invariant
                    *inner_json == Value::Object(*props),
                    i <= props.len(),
                    out@.len() == i,
                    forall|j: int|
                        0 <= j < i ==> (#[trigger] out@[j]).0@ == props@[j].0@ && out@[j].1@
                            == props@[j].1@,
                decreases props.len() - i,
            {
                let (k, v) = &props[i];
                out.push((k.clone(), clone_value(v)));
                i += 1;
            }
            proof {
                lemma_properties_model(out@);
                lemma_properties_model(props@);
                assert(properties_model(out@) =~= properties_model(props@));
            }
            out
        },
        _ => {
            proof {
                assert(false);
            }
            Vec::new()
        },
    }
}

/// The last requested position, in request order, outside a property list of
/// length `count`.
pub open spec fn last_oob(idxs: Seq<usize>, count: nat) -> usize
    decreases idxs.len(),
{
    if idxs.len() == 0 {
        0
    } else if (idxs.last() as nat) >= count {
        idxs.last()
    } else {
        last_oob(idxs.drop_last(), count)
    }
}

/// When every position after `i` is in bounds and position `i` is not, the
/// last out-of-bound position is position `i`.
pub proof fn lemma_last_oob(idxs: Seq<usize>, count: nat, i: int)
    requires
        0 <= i < idxs.len(),
        forall|j: int| i < j < idxs.len() ==> ((#[trigger] idxs[j]) as nat) < count,
        (idxs[i] as nat) >= count,
    ensures
        has_oob(idxs, count),
        last_oob(idxs, count) == idxs[i],
    decreases idxs.len(),
{
    if i < idxs.len() - 1 {
        lemma_last_oob(idxs.drop_last(), count, i);
    }
}

/// The context named by a projection message: "object" at the root step, the
/// previous selector's display name afterwards.
pub open spec fn object_reference(selectors: Seq<Selector>, map_index: int) -> Seq<char> {
    if map_index > 0 {
        sel_name(selectors[map_index - 1], false)
    } else {
        "object"@
    }
}

/// The position of the first property with the given key, or `-1`.
pub open spec fn key_index(props: Seq<(Seq<char>, ValueModel)>, key: Seq<char>) -> int
    decreases props.len(),
{
    if props.len() == 0 {
        -1
    } else if props[0].0 == key {
        0
    } else if key_index(props.drop_first(), key) == -1 {
        -1
    } else {
        key_index(props.drop_first(), key) + 1
    }
}

/// When the properties before `i` miss the key and property `i` carries it,
/// the key stands at position `i`.
pub proof fn lemma_key_index_found(props: Seq<(Seq<char>, ValueModel)>, key: Seq<char>, i: int)
    requires
        0 <= i < props.len(),
        forall|j: int| 0 <= j < i ==> (#[trigger] props[j]).0 != key,
        props[i].0 == key,
    ensures
        key_index(props, key) == i,
    decreases i,
{
    if i > 0 {
        lemma_key_index_found(props.drop_first(), key, i - 1);
    }
}

/// When no property carries the key, its position is `-1`.
pub proof fn lemma_key_index_none(props: Seq<(Seq<char>, ValueModel)>, key: Seq<char>)
    requires
        forall|j: int| 0 <= j < props.len() ==> (#[trigger] props[j]).0 != key,
    ensures
        key_index(props, key) == -1,
    decreases props.len(),
{
    if props.len() > 0 {
        lemma_key_index_none(props.drop_first(), key);
    }
}

/// Inserting a property into an object: an existing key is overwritten in
/// place, a new key is appended.
pub open spec fn upsert(
    props: Seq<(Seq<char>, ValueModel)>,
    key: Seq<char>,
    val: ValueModel,
) -> Seq<(Seq<char>, ValueModel)> {
    if key_index(props, key) >= 0 {
        props.update(key_index(props, key), (key, val))
    } else {
        props.push((key, val))
    }
}

/// Merging one partial object into an accumulated one, property by property
/// in order: later keys overwrite earlier ones in place.
pub open spec fn merge_props(
    acc: Seq<(Seq<char>, ValueModel)>,
    partial: Seq<(Seq<char>, ValueModel)>,
) -> Seq<(Seq<char>, ValueModel)>
    decreases partial.len(),
{
    if partial.len() == 0 {
        acc
    } else {
        merge_props(upsert(acc, partial[0].0, partial[0].1), partial.drop_first())
    }
}

/// Finds the first property with the given key.
fn find_key(props: &Vec<(String, Value)>, key: &String) -> (r: Option<usize>)
    ensures
        match r {
            Option::Some(i) => i < props@.len() && key_index(properties_model(props@), key@)
                == i as int && properties_model(props@)[i as int].0 == key@,
            Option::None => key_index(properties_model(props@), key@) == -1,
        },
{
    proof {
        lemma_properties_model(props@);
    }
    let ghost props_m: Seq<(Seq<char>, ValueModel)> = properties_model(props@);
    let mut i: usize = 0;
    while i < props.len()
        invariant
            props_m == properties_model(props@),
            props_m.len() == props@.len(),
            forall|k: int|
                0 <= k < props@.len() ==> #[trigger] props_m[k] == (props@[k].0@, props@[k].1@),
            i <= props.len(),
            forall|j: int| 0 <= j < i ==> (#[trigger] props_m[j]).0 != key@,
        decreases props.len() - i,
    {
        if props[i].0.eq(key) {
            proof {
                lemma_key_index_found(props_m, key@, i as int);
            }
            return Option::Some(i);
        }
        i += 1;
    }
    proof {
        lemma_key_index_none(props_m, key@);
    }
    Option::None
}

/// Merges a partial object into the accumulated projection result.
fn merge_into(acc: &mut Vec<(String, Value)>, partial: Vec<(String, Value)>)
    ensures
        properties_model(final(acc)@) == merge_props(
            properties_model(old(acc)@),
            properties_model(partial@),
        ),
{
    proof {
        lemma_properties_model(partial@);
    }
    let ghost partial_m: Seq<(Seq<char>, ValueModel)> = properties_model(partial@);
    proof {
        assert(partial_m.skip(0) =~= partial_m);
    }
    let mut t: usize = 0;
    while t < partial.len()
        invariant
            partial_m == properties_model(partial@),
            partial_m.len() == partial@.len(),
            forall|k: int|
                0 <= k < partial@.len() ==> #[trigger] partial_m[k] == (
                partial@[k].0@,
                partial@[k].1@,
            ),
            t <= partial.len(),
            merge_props(properties_model(old(acc)@), partial_m) == merge_props(
                properties_model(acc@),
                partial_m.skip(t as int),
            ),
        decreases partial.len() - t,
    {
        let ghost acc_view_before: Seq<(String, Value)> = acc@;
        let ghost acc_before: Seq<(Seq<char>, ValueModel)> = properties_model(acc@);
        let (k, v) = &partial[t];
        let key = k.clone();
        let val = clone_value(v);
        match find_key(acc, &key) {
            Option::Some(i) => {
                acc[i] = (key, val);
                proof {
                    lemma_properties_model(acc_view_before);
                    lemma_properties_model(acc@);
                    assert(acc@ == acc_view_before.update(i as int, acc@[i as int]));
                    assert(properties_model(acc@) =~= upsert(
                        acc_before,
                        partial_m[t as int].0,
                        partial_m[t as int].1,
                    ));
                }
            },
            Option::None => {
                acc.push((key, val));
                proof {
                    lemma_properties_model(acc_view_before);
                    lemma_properties_model(acc@);
                    assert(properties_model(acc@) =~= upsert(
                        acc_before,
                        partial_m[t as int].0,
                        partial_m[t as int].1,
                    ));
                }
            },
        }
        proof {
            assert(partial_m.skip(t as int).drop_first() =~= partial_m.skip(t + 1 as int));
            assert(partial_m.skip(t as int)[0] == partial_m[t as int]);
        }
        t += 1;
    }
    proof {
        assert(partial_m.skip(partial_m.len() as int).len() == 0);
    }
}

/// What one projection instruction contributes: a partial object, or the
/// exact diagnostic. An instruction that indexes the current object's
/// properties is meaningful only on an object value.
pub open spec fn spec_instruction(
    instr: InnerInstruction,
    v: ValueModel,
    map_index: int,
    selectors: Seq<Selector>,
) -> Result<Seq<(Seq<char>, ValueModel)>, Seq<char>> {
    match instr {
        InnerInstruction::Key(k) => match spec_apply_selector(v, map_index, k@, selectors) {
            Ok(val) => Ok(seq![(k@, val)]),
            Err(e) => Err(e),
        },
        InnerInstruction::IndexSet(idxs) => {
            let props = v->Obj_0;
            if has_oob(idxs@, props.len()) {
                Err(
                    property_index_oob_msg(
                        last_oob(idxs@, props.len()) as nat,
                        object_reference(selectors, map_index),
                        props.len(),
                    ),
                )
            } else {
                Ok(
                    Seq::new(
                        idxs@.len(),
                        |i: int| (dec_str(idxs@[i] as nat), props[idxs@[i] as int].1),
                    ),
                )
            }
        },
        InnerInstruction::Range(start, end) => {
            let props = v->Obj_0;
            let s = resolved_start(start);
            let e = resolved_end(end, props.len());
            if props.len() == 0 || s >= props.len() || e >= props.len() {
                Err(
                    property_range_oob_msg(
                        s as nat,
                        e as nat,
                        object_reference(selectors, map_index),
                        props.len(),
                    ),
                )
            } else {
                let sp = span(s, e);
                Ok(Seq::new(sp.len(), |i: int| (dec_str(sp[i] as nat), props[sp[i]].1)))
            }
        },
        InnerInstruction::PassThroughArray => Ok(v->Obj_0),
    }
}

/// Whether one instruction is meaningful on the current value: a key lookup
/// works on any value (and misses), the property-indexing instructions and
/// the pass-through guard presuppose an object.
pub open spec fn instruction_defined(instr: InnerInstruction, v: ValueModel) -> bool {
    match instr {
        InnerInstruction::Key(_) => true,
        _ => v is Obj,
    }
}

/// Whether a whole projection is meaningful on the current value.
pub open spec fn projection_defined(instrs: Seq<InnerInstruction>, v: ValueModel) -> bool {
    forall|i: int| 0 <= i < instrs.len() ==> instruction_defined(#[trigger] instrs[i], v)
}

/// Evaluates one projection instruction against the current value.
fn eval_instruction(
    instr: &InnerInstruction,
    inner_json: &Value,
    map_index: usize,
    selectors: &Vec<Selector>,
) -> (r: Result<Vec<(String, Value)>, String>)
    requires
        map_index == 0 || map_index - 1 < selectors@.len(),
        instruction_defined(*instr, inner_json@),
    ensures
        (match r {
            Ok(p) => Ok::<Seq<(Seq<char>, ValueModel)>, Seq<char>>(properties_model(p@)),
            Err(e) => Err(e@),
        }) == spec_instruction(*instr, inner_json@, map_index as int, selectors@),
{
    match instr {
        InnerInstruction::Key(k) => match apply_selector(inner_json, map_index, k, selectors) {
            Ok(val) => {
                let mut p: Vec<(String, Value)> = Vec::new();
                let ghost val_m: ValueModel = val@;
                p.push((k.clone(), val));
                proof {
                    lemma_properties_model(p@);
                    assert(properties_model(p@) =~= seq![(k@, val_m)]);
                }
                Ok(p)
            },
            Err(e) => Err(e),
        },
        InnerInstruction::IndexSet(idxs) => {
            let props = object_to_vec(inner_json);
            proof {
                lemma_properties_model(props@);
            }
            let ghost props_m: Seq<(Seq<char>, ValueModel)> = properties_model(props@);
            let count = props.len();
            let mut i: usize = idxs.len();
            while i > 0
                invariant
                    *instr == InnerInstruction::IndexSet(*idxs),
                    props_m == inner_json@->Obj_0,
                    count == props_m.len(),
                    map_index == 0 || map_index - 1 < selectors@.len(),
                    i <= idxs@.len(),
                    forall|j: int|
                        i <= j < idxs@.len() ==> ((#[trigger] idxs@[j]) as nat) < count,
                decreases i,
            {
                i -= 1;
                if idxs[i] >= count {
                    proof {
                        lemma_last_oob(idxs@, count as nat, i as int);
                    }
                    let reference: String = if map_index > 0 {
                        selectors[map_index - 1].as_str(false)
                    } else {
                        String::from_str("object")
                    };
                    return Err(property_index_oob_message(idxs[i], reference.as_str(), count));
                }
            }
            let mut out: Vec<(String, Value)> = Vec::new();
            let mut j: usize = 0;
            while j < idxs.len()
                invariant
                    props_m == inner_json@->Obj_0,
                    props_m == properties_model(props@),
                    props_m.len() == props@.len(),
                    count == props_m.len(),
                    forall|k: int|
                        0 <= k < props@.len() ==> #[trigger] props_m[k] == (
                        props@[k].0@,
                        props@[k].1@,
                    ),
                    forall|k: int|
                        0 <= k < idxs@.len() ==> ((#[trigger] idxs@[k]) as nat) < count,
                    j <= idxs@.len(),
                    out@.len() == j,
                    forall|k: int|
                        0 <= k < j ==> (#[trigger] out@[k]).0@ == dec_str(idxs@[k] as nat)
                            && out@[k].1@ == props_m[idxs@[k] as int].1,
                decreases idxs@.len() - j,
            {
                let idx = idxs[j];
                out.push((usize_to_string(idx), clone_value(&props[idx].1)));
                j += 1;
            }
            proof {
                lemma_properties_model(out@);
                assert(properties_model(out@) =~= Seq::new(
                    idxs@.len(),
                    |i: int| (dec_str(idxs@[i] as nat), props_m[idxs@[i] as int].1),
                ));
            }
            Ok(out)
        },
        InnerInstruction::Range(start, end) => {
            let props = object_to_vec(inner_json);
            proof {
                lemma_properties_model(props@);
            }
            let ghost props_m: Seq<(Seq<char>, ValueModel)> = properties_model(props@);
            let count = props.len();
            let s = match start {
                Option::Some(s) => *s,
                Option::None => 0,
            };
            let e = match end {
                Option::Some(e) => *e,
                Option::None => if count == 0 {
                    0
                } else {
                    count - 1
                },
            };
            if count == 0 || s >= count || e >= count {
                let reference: String = if map_index > 0 {
                    selectors[map_index - 1].as_str(false)
                } else {
                    String::from_str("object")
                };
                return Err(property_range_oob_message(s, e, reference.as_str(), count));
            }
            let ghost sp: Seq<int> = span(s as int, e as int);
            let span_count: usize = if s < e {
                e - s + 1
            } else {
                s - e + 1
            };
            let ascending = s < e;
            let mut out: Vec<(String, Value)> = Vec::new();
            let mut i: usize = 0;
            while i < span_count
                invariant
                    props_m == inner_json@->Obj_0,
                    props_m == properties_model(props@),
                    props_m.len() == props@.len(),
                    count == props_m.len(),
                    forall|k: int|
                        0 <= k < props@.len() ==> #[trigger] props_m[k] == (
                        props@[k].0@,
                        props@[k].1@,
                    ),
                    s < count <= usize::MAX,
                    e < count,
                    sp == span(s as int, e as int),
                    span_count == sp.len(),
                    ascending == (s < e),
                    ascending ==> span_count == e - s + 1,
                    !ascending ==> span_count == s - e + 1,
                    forall|k: int| 0 <= k < sp.len() ==> 0 <= #[trigger] sp[k] < count,
                    i <= span_count,
                    out@.len() == i,
                    forall|k: int|
                        0 <= k < i ==> (#[trigger] out@[k]).0@ == dec_str(sp[k] as nat)
                            && out@[k].1@ == props_m[sp[k]].1,
                decreases span_count - i,
            {
                let pos: usize = if ascending {
                    s + i
                } else {
                    s - i
                };
                out.push((usize_to_string(pos), clone_value(&props[pos].1)));
                i += 1;
            }
            proof {
                lemma_properties_model(out@);
                assert(properties_model(out@) =~= Seq::new(
                    sp.len(),
                    |i: int| (dec_str(sp[i] as nat), props_m[sp[i]].1),
                ));
            }
            Ok(out)
        },
        InnerInstruction::PassThroughArray => Ok(object_to_vec(inner_json)),
    }
}

/// The remaining instructions of a projection folded over an accumulated
/// object: the synthesized object, or the first diagnostic.
pub open spec fn spec_project_rec(
    instrs: Seq<InnerInstruction>,
    i: int,
    acc: Seq<(Seq<char>, ValueModel)>,
    v: ValueModel,
    map_index: int,
    selectors: Seq<Selector>,
) -> Result<ValueModel, Seq<char>>
    decreases instrs.len() - i,
{
    if i >= instrs.len() {
        Ok(ValueModel::Obj(acc))
    } else {
        match spec_instruction(instrs[i], v, map_index, selectors) {
            Err(e) => Err(e),
            Ok(partial) => spec_project_rec(
                instrs,
                i + 1,
                merge_props(acc, partial),
                v,
                map_index,
                selectors,
            ),
        }
    }
}

/// What an object projection returns: every instruction evaluated against
/// the same current value, the partial objects merged in instruction order
/// (later keys overwrite earlier ones), or the first diagnostic.
pub open spec fn spec_object_projection(
    instrs: Seq<InnerInstruction>,
    v: ValueModel,
    map_index: int,
    selectors: Seq<Selector>,
) -> Result<ValueModel, Seq<char>> {
    spec_project_rec(instrs, 0, Seq::empty(), v, map_index, selectors)
}

/// Synthesizes a new object from a list of inner instructions, each
/// evaluated independently against the same current value.
pub fn object_projection(
    properties: &Vec<InnerInstruction>,
    inner_json: &Value,
    map_index: usize,
    selectors: &Vec<Selector>,
) -> (r: Selection)
    requires
        map_index == 0 || map_index - 1 < selectors@.len(),
        projection_defined(properties@, inner_json@),
    ensures
        (match r {
            Ok(v) => Ok::<ValueModel, Seq<char>>(v@),
            Err(e) => Err(e@),
        }) == spec_object_projection(
            properties@,
            inner_json@,
            map_index as int,
            selectors@,
        ),
{
    let mut acc: Vec<(String, Value)> = Vec::new();
    let mut i: usize = 0;
    while i < properties.len()
        invariant
            map_index == 0 || map_index - 1 < selectors@.len(),
            projection_defined(properties@, inner_json@),
            i <= properties.len(),
            spec_object_projection(properties@, inner_json@, map_index as int, selectors@)
                == spec_project_rec(
                properties@,
                i as int,
                properties_model(acc@),
                inner_json@,
                map_index as int,
                selectors@,
            ),
        decreases properties.len() - i,
    {
        match eval_instruction(&properties[i], inner_json, map_index, selectors) {
            Ok(partial) => {
                merge_into(&mut acc, partial);
            },
            Err(e) => {
                return Err(e);
            },
        }
        i += 1;
    }
    Ok(Value::Object(acc))
}

/// The selector before step `i`, if the step is not the root step.
pub open spec fn step_previous(selectors: Seq<Selector>, i: int) -> Option<Selector> {
    if i == 0 {
        Option::None
    } else {
        Option::Some(selectors[i - 1])
    }
}

/// What step `i` of the pipeline returns on the current value: its
/// selector's variant dispatched to the matching resolver.
pub open spec fn spec_step(selectors: Seq<Selector>, i: int, v: ValueModel) -> Result<
    ValueModel,
    Seq<char>,
> {
    match selectors[i] {
        Selector::Key(k) => spec_apply_selector(v, i, k@, selectors),
        Selector::ObjectProjection(instrs) => spec_object_projection(instrs@, v, i, selectors),
        Selector::IndexSet(idxs) => spec_array_walker(idxs@, v, i, selectors),
        Selector::Range(start, end) => spec_range_selector(
            start,
            end,
            v,
            step_previous(selectors, i),
        ),
        Selector::WholeArray => spec_range_selector(
            Option::Some(0),
            Option::None,
            v,
            step_previous(selectors, i),
        ),
    }
}

/// Whether step `i` is meaningful on the current value.
pub open spec fn step_defined(selectors: Seq<Selector>, i: int, v: ValueModel) -> bool {
    match selectors[i] {
        Selector::ObjectProjection(instrs) => projection_defined(instrs@, v),
        _ => true,
    }
}

/// What the whole pipeline returns from step `i` on: the ordered per-step
/// values, or the first diagnostic — later steps are never evaluated.
pub open spec fn spec_pipeline(selectors: Seq<Selector>, i: int, v: ValueModel) -> Result<
    Seq<ValueModel>,
    Seq<char>,
>
    decreases selectors.len() - i,
{
    if i >= selectors.len() {
        Ok(Seq::empty())
    } else {
        match spec_step(selectors, i, v) {
            Err(e) => Err(e),
            Ok(w) => match spec_pipeline(selectors, i + 1, w) {
                Err(e) => Err(e),
                Ok(rest) => Ok(seq![w] + rest),
            },
        }
    }
}

/// Whether every step that runs is meaningful on the value it receives.
pub open spec fn spec_pipeline_defined(selectors: Seq<Selector>, i: int, v: ValueModel) -> bool
    decreases selectors.len() - i,
{
    if i >= selectors.len() {
        true
    } else {
        step_defined(selectors, i, v) && match spec_step(selectors, i, v) {
            Err(_) => true,
            Ok(w) => spec_pipeline_defined(selectors, i + 1, w),
        }
    }
}

/// Applies a selector sequence to a root value, step by step: each step's
/// result becomes the next step's input, and the first failing step aborts
/// the rest.
pub fn get_selection(selectors: &Vec<Selector>, json: &Value) -> (r: Selections)
    requires
        spec_pipeline_defined(selectors@, 0, json@),
    ensures
        (match r {
            Ok(vs) => Ok::<Seq<ValueModel>, Seq<char>>(values_model(vs@)),
            Err(e) => Err(e@),
        }) == spec_pipeline(selectors@, 0, json@),
{
    let mut current: Value = clone_value(json);
    let mut out: Vec<Value> = Vec::new();
    let mut i: usize = 0;
    while i < selectors.len()
        invariant
            i <= selectors@.len(),
            out@.len() == i,
            spec_pipeline_defined(selectors@, i as int, current@),
            spec_pipeline(selectors@, 0, json@) == (match spec_pipeline(
                selectors@,
                i as int,
                current@,
            ) {
                Ok(rest) => Ok::<Seq<ValueModel>, Seq<char>>(values_model(out@) + rest),
                Err(e) => Err(e),
            }),
        decreases selectors@.len() - i,
    {
        let ghost v_before: ValueModel = current@;
        let sel = &selectors[i];
        let res: Selection = match sel {
            Selector::Key(k) => apply_selector(&current, i, k, selectors),
            Selector::ObjectProjection(instrs) => object_projection(
                instrs,
                &current,
                i,
                selectors,
            ),
            Selector::IndexSet(idxs) => array_walker(idxs, &current, i, selectors),
            Selector::Range(start, end) => range_selector(
                *start,
                *end,
                &current,
                if i == 0 {
                    Option::None
                } else {
                    Option::Some(&selectors[i - 1])
                },
            ),
            Selector::WholeArray => range_selector(
                Option::Some(0),
                Option::None,
                &current,
                if i == 0 {
                    Option::None
                } else {
                    Option::Some(&selectors[i - 1])
                },
            ),
        };
        proof {
            assert((match res {
                Ok(v) => Ok::<ValueModel, Seq<char>>(v@),
                Err(e) => Err(e@),
            }) == spec_step(selectors@, i as int, v_before));
        }
        match res {
            Ok(v) => {
                let ghost out_before: Seq<Value> = out@;
                out.push(clone_value(&v));
                current = v;
                proof {
                    assert(values_model(out@) =~= values_model(out_before) + seq![current@]);
                    assert(spec_pipeline(selectors@, i as int, v_before) == (match spec_pipeline(
                        selectors@,
                        i + 1 as int,
                        current@,
                    ) {
                        Ok(rest) => Ok::<Seq<ValueModel>, Seq<char>>(seq![current@] + rest),
                        Err(e) => Err(e),
                    }));
                    if let Ok(rest) = spec_pipeline(selectors@, i + 1 as int, current@) {
                        assert(values_model(out_before) + (seq![current@] + rest) =~= values_model(
                            out@,
                        ) + rest);
                    }
                }
            },
            Err(e) => {
                return Err(e);
            },
        }
        i += 1;
    }
    proof {
        assert(values_model(out@) + Seq::<ValueModel>::empty() =~= values_model(out@));
    }
    Ok(out)
}

/// Decides whether a projection is meaningful on the current value: on an
/// object every instruction is, elsewhere only key lookups are.
pub fn projection_ok(instrs: &Vec<InnerInstruction>, v: &Value) -> (r: bool)
    ensures
        r == projection_defined(instrs@, v@),
{
    match v {
        Value::Object(_) => true,
        _ => {
            let mut i: usize = 0;
            while i < instrs.len()
                invariant
                    !(v@ is Obj),
                    i <= instrs@.len(),
                    forall|j: int| 0 <= j < i ==> (#[trigger] instrs@[j]) is Key,
                decreases instrs@.len() - i,
            {
                match &instrs[i] {
                    InnerInstruction::Key(_) => {},
                    _ => {
                        return false;
                    },
                }
                i += 1;
            }
            true
        },
    }
}

/// Decides whether a whole query is meaningful on a root value: every step
/// that would run either is no projection, or projects an object. A query
/// for which this holds is what [`get_selection`] asks for.
pub fn selection_defined(selectors: &Vec<Selector>, json: &Value) -> (r: bool)
    ensures
        r == spec_pipeline_defined(selectors@, 0, json@),
{
    let mut current: Value = clone_value(json);
    let mut i: usize = 0;
    while i < selectors.len()
        invariant
            i <= selectors@.len(),
            spec_pipeline_defined(selectors@, 0, json@) <==> spec_pipeline_defined(
                selectors@,
                i as int,
                current@,
            ),
        decreases selectors@.len() - i,
    {
        let ghost v_before: ValueModel = current@;
        let sel = &selectors[i];
        if let Selector::ObjectProjection(instrs) = sel {
            if !projection_ok(instrs, &current) {
                return false;
            }
        }
        let res: Selection = match sel {
            Selector::Key(k) => apply_selector(&current, i, k, selectors),
            Selector::ObjectProjection(instrs) => object_projection(
                instrs,
                &current,
                i,
                selectors,
            ),
            Selector::IndexSet(idxs) => array_walker(idxs, &current, i, selectors),
            Selector::Range(start, end) => range_selector(
                *start,
                *end,
                &current,
                if i == 0 {
                    Option::None
                } else {
                    Option::Some(&selectors[i - 1])
                },
            ),
            Selector::WholeArray => range_selector(
                Option::Some(0),
                Option::None,
                &current,
                if i == 0 {
                    Option::None
                } else {
                    Option::Some(&selectors[i - 1])
                },
            ),
        };
        proof {
            assert((match res {
                Ok(v) => Ok::<ValueModel, Seq<char>>(v@),
                Err(e) => Err(e@),
            }) == spec_step(selectors@, i as int, v_before));
        }
        match res {
            Ok(v) => {
                current = v;
            },
            Err(_) => {
                return true;
            },
        }
        i += 1;
    }
    true
}

} // verus!
