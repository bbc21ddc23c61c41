//! General properties of the selection engine, proved once and for all:
//! what single- and multi-position indexing yield, how a reversed range
//! relates to the forward one, that a failing step short-circuits the
//! pipeline, how a projection's key set is composed, and that a query is
//! deterministic.

use vstd::prelude::*;

use crate::range::{span, spec_range_selector};
use crate::selection::{
    key_index, merge_props, spec_instruction, spec_object_projection, spec_pipeline,
    spec_project_rec, spec_step, upsert,
};
use crate::types::{InnerInstruction, Selector, ValueModel};
use crate::walker::{has_oob, spec_array_walker};

verus! {

/// Indexing an array at one valid position yields that element itself, not
/// wrapped in an array.
pub proof fn lemma_single_index(
    arr: Seq<ValueModel>,
    p: usize,
    map_index: int,
    selectors: Seq<Selector>,
)
    requires
        (p as nat) < arr.len(),
    ensures
        spec_array_walker(seq![p], ValueModel::Arr(arr), map_index, selectors)
            == Ok::<ValueModel, Seq<char>>(arr[p as int]),
{
    let idxs = seq![p];
    assert(forall|i: int| 0 <= i < idxs.len() ==> ((#[trigger] idxs[i]) as nat) < arr.len());
    assert(!has_oob(idxs, arr.len()));
}

/// Indexing an array at two valid positions yields the two elements in
/// request order, duplicates preserved.
pub proof fn lemma_index_pair(
    arr: Seq<ValueModel>,
    p: usize,
    q: usize,
    map_index: int,
    selectors: Seq<Selector>,
)
    requires
        (p as nat) < arr.len(),
        (q as nat) < arr.len(),
    ensures
        spec_array_walker(seq![p, q], ValueModel::Arr(arr), map_index, selectors)
            == Ok::<ValueModel, Seq<char>>(
            ValueModel::Arr(seq![arr[p as int], arr[q as int]]),
        ),
{
    let idxs = seq![p, q];
    assert(forall|i: int| 0 <= i < idxs.len() ==> ((#[trigger] idxs[i]) as nat) < arr.len());
    assert(!has_oob(idxs, arr.len()));
    assert(Seq::new(idxs.len(), |i: int| arr[idxs[i] as int]) =~= seq![
        arr[p as int],
        arr[q as int],
    ]);
}

/// A reversed range selects backwards: on valid bounds `s < e`, the range
/// `[e:s]` yields exactly the elements of `[s:e]` in reverse order.
pub proof fn lemma_range_reversal(
    arr: Seq<ValueModel>,
    s: usize,
    e: usize,
    previous: Option<Selector>,
)
    requires
        s < e,
        (e as nat) < arr.len(),
    ensures
        ({
            let forward = spec_range_selector(
                Option::Some(s),
                Option::Some(e),
                ValueModel::Arr(arr),
                previous,
            );
            let backward = spec_range_selector(
                Option::Some(e),
                Option::Some(s),
                ValueModel::Arr(arr),
                previous,
            );
            &&& forward == Ok::<ValueModel, Seq<char>>(
                ValueModel::Arr(Seq::new((e - s + 1) as nat, |i: int| arr[s + i])),
            )
            &&& backward == Ok::<ValueModel, Seq<char>>(
                ValueModel::Arr(Seq::new((e - s + 1) as nat, |i: int| arr[s + i]).reverse()),
            )
        }),
{
    let fwd_span = span(s as int, e as int);
    let bwd_span = span(e as int, s as int);
    let fwd = Seq::new((e - s + 1) as nat, |i: int| arr[s + i]);
    assert(Seq::new(fwd_span.len(), |i: int| arr[fwd_span[i]]) =~= fwd);
    assert(Seq::new(bwd_span.len(), |i: int| arr[bwd_span[i]]) =~= fwd.reverse());
}

/// Two equally long queries that agree on the selectors up to `map_index`
/// give every resolver the same context there.
proof fn lemma_project_congruence(
    instrs: Seq<InnerInstruction>,
    t: int,
    acc: Seq<(Seq<char>, ValueModel)>,
    v: ValueModel,
    map_index: int,
    selectors1: Seq<Selector>,
    selectors2: Seq<Selector>,
)
    requires
        selectors1.len() == selectors2.len(),
        map_index == 0 || (0 <= map_index - 1 < selectors1.len() && selectors1[map_index - 1]
            == selectors2[map_index - 1]),
    ensures
        spec_project_rec(instrs, t, acc, v, map_index, selectors1) == spec_project_rec(
            instrs,
            t,
            acc,
            v,
            map_index,
            selectors2,
        ),
    decreases instrs.len() - t,
{
    if t < instrs.len() {
        assert(spec_instruction(instrs[t], v, map_index, selectors1) == spec_instruction(
            instrs[t],
            v,
            map_index,
            selectors2,
        ));
        match spec_instruction(instrs[t], v, map_index, selectors1) {
            Ok(partial) => {
                lemma_project_congruence(
                    instrs,
                    t + 1,
                    merge_props(acc, partial),
                    v,
                    map_index,
                    selectors1,
                    selectors2,
                );
            },
            Err(_) => {},
        }
    }
}

/// One step behaves identically under two equally long queries that agree
/// on its selector and the one before it.
proof fn lemma_step_congruence(
    selectors1: Seq<Selector>,
    selectors2: Seq<Selector>,
    i: int,
    v: ValueModel,
)
    requires
        selectors1.len() == selectors2.len(),
        0 <= i < selectors1.len(),
        selectors1[i] == selectors2[i],
        i == 0 || selectors1[i - 1] == selectors2[i - 1],
    ensures
        spec_step(selectors1, i, v) == spec_step(selectors2, i, v),
{
    match selectors1[i] {
        Selector::ObjectProjection(instrs) => {
            lemma_project_congruence(instrs@, 0, Seq::empty(), v, i, selectors1, selectors2);
        },
        _ => {},
    }
}

/// The pipeline, started at step `i` on `v`, runs up to step `k` and fails
/// there.
pub open spec fn pipeline_fails_at(
    selectors: Seq<Selector>,
    i: int,
    k: int,
    v: ValueModel,
) -> bool
    decreases k - i,
{
    if i >= k {
        spec_step(selectors, i, v) is Err
    } else {
        match spec_step(selectors, i, v) {
            Ok(w) => pipeline_fails_at(selectors, i + 1, k, w),
            Err(_) => false,
        }
    }
}

/// A failing step short-circuits the pipeline: when two equally long queries
/// agree up to and including a step that fails, the selectors after that
/// step never influence the result — both queries fail with that step's
/// diagnostic.
pub proof fn lemma_short_circuit(
    selectors1: Seq<Selector>,
    selectors2: Seq<Selector>,
    i: int,
    k: int,
    v: ValueModel,
)
    requires
        selectors1.len() == selectors2.len(),
        0 <= i <= k < selectors1.len(),
        forall|j: int| 0 <= j <= k ==> selectors1[j] == selectors2[j],
        pipeline_fails_at(selectors1, i, k, v),
    ensures
        spec_pipeline(selectors1, i, v) is Err,
        spec_pipeline(selectors1, i, v) == spec_pipeline(selectors2, i, v),
    decreases k - i,
{
    lemma_step_congruence(selectors1, selectors2, i, v);
    if i < k {
        match spec_step(selectors1, i, v) {
            Ok(w) => {
                lemma_short_circuit(selectors1, selectors2, i + 1, k, w);
            },
            Err(_) => {
                assert(false);
            },
        }
    }
}

/// The set of keys of an object's property list.
pub open spec fn prop_keys(props: Seq<(Seq<char>, ValueModel)>) -> Set<Seq<char>> {
    Set::new(|key: Seq<char>| exists|i: int| 0 <= i < props.len() && (#[trigger] props[i]).0 == key)
}

/// A non-negative key position carries the key.
proof fn lemma_key_index_carries(props: Seq<(Seq<char>, ValueModel)>, key: Seq<char>)
    requires
        key_index(props, key) >= 0,
    ensures
        key_index(props, key) < props.len(),
        props[key_index(props, key)].0 == key,
    decreases props.len(),
{
    if props.len() > 0 && props[0].0 != key {
        lemma_key_index_carries(props.drop_first(), key);
    }
}

/// A key position is `-1` or a valid position.
proof fn lemma_key_index_range(props: Seq<(Seq<char>, ValueModel)>, key: Seq<char>)
    ensures
        key_index(props, key) == -1 || 0 <= key_index(props, key) < props.len(),
    decreases props.len(),
{
    if props.len() > 0 && props[0].0 != key {
        lemma_key_index_range(props.drop_first(), key);
    }
}

/// A negative key position means no property carries the key.
proof fn lemma_key_index_missing(props: Seq<(Seq<char>, ValueModel)>, key: Seq<char>)
    requires
        key_index(props, key) == -1,
    ensures
        forall|j: int| 0 <= j < props.len() ==> (#[trigger] props[j]).0 != key,
    decreases props.len(),
{
    if props.len() > 0 {
        lemma_key_index_range(props.drop_first(), key);
        lemma_key_index_missing(props.drop_first(), key);
        assert(forall|j: int|
            1 <= j < props.len() ==> (#[trigger] props[j]).0 == props.drop_first()[j - 1].0);
    }
}

/// Inserting a property adds exactly its key to the key set.
proof fn lemma_upsert_keys(props: Seq<(Seq<char>, ValueModel)>, key: Seq<char>, val: ValueModel)
    ensures
        prop_keys(upsert(props, key, val)) == prop_keys(props).insert(key),
{
    let merged = upsert(props, key, val);
    if key_index(props, key) >= 0 {
        lemma_key_index_carries(props, key);
    }
    assert forall|k2: Seq<char>| #[trigger]
        prop_keys(merged).contains(k2) implies prop_keys(props).insert(key).contains(k2) by {
        let i = choose|i: int| 0 <= i < merged.len() && (#[trigger] merged[i]).0 == k2;
        if merged[i].0 != key {
            assert(props[i].0 == k2);
        }
    }
    assert forall|k2: Seq<char>| #[trigger]
        prop_keys(props).insert(key).contains(k2) implies prop_keys(merged).contains(k2) by {
        if k2 == key {
            if key_index(props, key) >= 0 {
                assert(merged[key_index(props, key)].0 == key);
            } else {
                assert(merged[props.len() as int].0 == key);
            }
        } else {
            let i = choose|i: int| 0 <= i < props.len() && (#[trigger] props[i]).0 == k2;
            assert(merged[i].0 == k2);
        }
    }
    assert(prop_keys(merged) =~= prop_keys(props).insert(key));
}

/// Merging two partial objects unions their key sets.
pub proof fn lemma_merge_keys(
    acc: Seq<(Seq<char>, ValueModel)>,
    partial: Seq<(Seq<char>, ValueModel)>,
)
    ensures
        prop_keys(merge_props(acc, partial)) == prop_keys(acc) + prop_keys(partial),
    decreases partial.len(),
{
    if partial.len() == 0 {
        assert(prop_keys(merge_props(acc, partial)) =~= prop_keys(acc) + prop_keys(partial));
    } else {
        let up = upsert(acc, partial[0].0, partial[0].1);
        lemma_upsert_keys(acc, partial[0].0, partial[0].1);
        lemma_merge_keys(up, partial.drop_first());
        assert forall|k2: Seq<char>| #[trigger]
            prop_keys(partial).contains(k2) implies (k2 == partial[0].0 || prop_keys(
            partial.drop_first(),
        ).contains(k2)) by {
            let i = choose|i: int| 0 <= i < partial.len() && (#[trigger] partial[i]).0 == k2;
            if i > 0 {
                assert(partial.drop_first()[i - 1].0 == k2);
            }
        }
        assert forall|k2: Seq<char>| #[trigger]
            prop_keys(partial.drop_first()).contains(k2) implies prop_keys(partial).contains(
            k2,
        ) by {
            let i = choose|i: int|
                0 <= i < partial.drop_first().len() && (#[trigger] partial.drop_first()[i]).0
                    == k2;
            assert(partial[i + 1].0 == k2);
        }
        assert(prop_keys(partial).contains(partial[0].0));
        assert(prop_keys(merge_props(acc, partial)) =~= prop_keys(acc) + prop_keys(partial));
    }
}

/// An object projection of a key instruction and an index-set instruction
/// over the same current value merges both partial objects into one whose
/// key set is the union of the two partial objects' key sets.
pub proof fn lemma_projection_union(
    key_instr: InnerInstruction,
    idx_instr: InnerInstruction,
    v: ValueModel,
    map_index: int,
    selectors: Seq<Selector>,
)
    requires
        key_instr is Key,
        idx_instr is IndexSet,
        spec_instruction(key_instr, v, map_index, selectors) is Ok,
        spec_instruction(idx_instr, v, map_index, selectors) is Ok,
    ensures
        ({
            let r = spec_object_projection(seq![key_instr, idx_instr], v, map_index, selectors);
            let key_part = spec_instruction(key_instr, v, map_index, selectors)->Ok_0;
            let idx_part = spec_instruction(idx_instr, v, map_index, selectors)->Ok_0;
            &&& r is Ok
            &&& r->Ok_0 is Obj
            &&& prop_keys(r->Ok_0->Obj_0) == prop_keys(key_part) + prop_keys(idx_part)
        }),
{
    let instrs = seq![key_instr, idx_instr];
    let key_part = spec_instruction(key_instr, v, map_index, selectors)->Ok_0;
    let idx_part = spec_instruction(idx_instr, v, map_index, selectors)->Ok_0;
    let empty = Seq::<(Seq<char>, ValueModel)>::empty();
    assert(spec_project_rec(instrs, 0, empty, v, map_index, selectors) == spec_project_rec(
        instrs,
        1,
        merge_props(empty, key_part),
        v,
        map_index,
        selectors,
    ));
    let after_key = merge_props(empty, key_part);
    assert(spec_project_rec(instrs, 1, after_key, v, map_index, selectors) == spec_project_rec(
        instrs,
        2,
        merge_props(after_key, idx_part),
        v,
        map_index,
        selectors,
    ));
    lemma_merge_keys(empty, key_part);
    lemma_merge_keys(after_key, idx_part);
    assert(prop_keys(empty) =~= Set::<Seq<char>>::empty());
    assert(prop_keys(merge_props(after_key, idx_part)) =~= prop_keys(key_part) + prop_keys(
        idx_part,
    ));
}

/// A query is deterministic: any two results that the pipeline's contract
/// admits for the same selector sequence and the same root value are equal —
/// re-running the same query on the same document yields identical output.
pub proof fn lemma_selection_deterministic(
    selectors: Seq<Selector>,
    v: ValueModel,
    r1: Result<Seq<ValueModel>, Seq<char>>,
    r2: Result<Seq<ValueModel>, Seq<char>>,
)
    requires
        r1 == spec_pipeline(selectors, 0, v),
        r2 == spec_pipeline(selectors, 0, v),
    ensures
        r1 == r2,
{
}

} // verus!
