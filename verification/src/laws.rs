//! The laws of the store: what insertion and removal guarantee across the
//! eight indices, proved over the [`StoreModel`] that the contracts of
//! [`crate::storage::InputStorage`] and [`crate::store::InputStore`] speak
//! of.

use vstd::prelude::*;

use crate::model::{
    all_resolve, apply_input, apply_inputs_prefix, input_ids_of, lookup_input, lookup_inputs,
    remove_id, remove_ids_prefix, spec_insert, spec_remove, variant_hits, StoreModel,
};
use crate::types::{Field, Input, TransitionID};

verus! {

/// The identifiers of the listed inputs are pairwise distinct.
pub open spec fn distinct_input_ids(inputs: Seq<Input>) -> bool {
    forall|i: int, j: int|
        0 <= i < j < inputs.len() ==> inputs[i].spec_id().value != inputs[j].spec_id().value
}

/// No listed input's identifier is already held by any of the five variant
/// maps.
pub open spec fn inputs_fresh(m: StoreModel, inputs: Seq<Input>) -> bool {
    forall|i: int| 0 <= i < inputs.len() ==> variant_hits(m, inputs[i].spec_id().value) == 0
}

/// Writing one input leaves every other identifier's variant maps alone.
proof fn lemma_apply_input_other(m: StoreModel, tid: TransitionID, inp: Input, k: u128)
    requires
        k != inp.spec_id().value,
    ensures
        variant_hits(apply_input(m, tid, inp), k) == variant_hits(m, k),
        lookup_input(apply_input(m, tid, inp), k) == lookup_input(m, k),
        apply_input(m, tid, inp).reverse.contains_key(k) == m.reverse.contains_key(k),
        m.reverse.contains_key(k) ==> apply_input(m, tid, inp).reverse[k] == m.reverse[k],
{
}

/// Writing one input over a fresh identifier makes that identifier resolve
/// to exactly the written input.
proof fn lemma_apply_input_self(m: StoreModel, tid: TransitionID, inp: Input)
    requires
        variant_hits(m, inp.spec_id().value) == 0,
    ensures
        variant_hits(apply_input(m, tid, inp), inp.spec_id().value) == 1,
        lookup_input(apply_input(m, tid, inp), inp.spec_id().value) == inp,
{
    let id = inp.spec_id().value;
    let m2 = apply_input(m, tid, inp);
    match inp {
        Input::Constant(f, c) => {
            assert(m2.constant == m.constant.insert(id, c));
            assert(f.value == id);
            assert(f == Field { value: id });
        },
        Input::Public(f, p) => {
            assert(m2.public == m.public.insert(id, p));
            assert(f == Field { value: id });
        },
        Input::Private(f, p) => {
            assert(m2.private == m.private.insert(id, p));
            assert(f == Field { value: id });
        },
        Input::Record(serial_number, tag, origin) => {
            assert(m2.record == m.record.insert(id, (tag, origin)));
            assert(serial_number == Field { value: id });
        },
        Input::ExternalRecord(f) => {
            assert(m2.external == m.external.insert(id, ()));
            assert(f == Field { value: id });
        },
    }
}

/// After writing the first `n` inputs of a list with pairwise distinct,
/// fresh identifiers: the written ones resolve to themselves, the rest are
/// still fresh, every written one points back at the transition, and the
/// forward index is untouched.
proof fn lemma_apply_prefix_resolution(
    m: StoreModel,
    tid: TransitionID,
    inputs: Seq<Input>,
    n: int,
)
    requires
        0 <= n <= inputs.len(),
        distinct_input_ids(inputs),
        inputs_fresh(m, inputs),
    ensures
        ({
            let m2 = apply_inputs_prefix(m, tid, inputs, n);
            &&& forall|i: int|
                0 <= i < n ==> variant_hits(m2, #[trigger] inputs[i].spec_id().value) == 1
                    && lookup_input(m2, inputs[i].spec_id().value) == inputs[i]
            &&& forall|i: int|
                n <= i < inputs.len() ==> variant_hits(m2, #[trigger] inputs[i].spec_id().value)
                    == 0
            &&& forall|i: int|
                0 <= i < n ==> m2.reverse.contains_key(#[trigger] inputs[i].spec_id().value)
                    && m2.reverse[inputs[i].spec_id().value] == tid
            &&& m2.ids == m.ids
        }),
    decreases n,
{
    if n > 0 {
        lemma_apply_prefix_resolution(m, tid, inputs, n - 1);
        let prev = apply_inputs_prefix(m, tid, inputs, n - 1);
        let inp = inputs[n - 1];
        let m2 = apply_input(prev, tid, inp);
        assert(variant_hits(prev, inp.spec_id().value) == 0);
        lemma_apply_input_self(prev, tid, inp);
        assert forall|i: int|
            0 <= i < n - 1 implies variant_hits(m2, #[trigger] inputs[i].spec_id().value) == 1
            && lookup_input(m2, inputs[i].spec_id().value) == inputs[i] by {
            lemma_apply_input_other(prev, tid, inp, inputs[i].spec_id().value);
        }
        assert forall|i: int|
            n <= i < inputs.len() implies variant_hits(
            m2,
            #[trigger] inputs[i].spec_id().value,
        ) == 0 by {
            lemma_apply_input_other(prev, tid, inp, inputs[i].spec_id().value);
        }
        assert forall|i: int|
            0 <= i < n implies m2.reverse.contains_key(#[trigger] inputs[i].spec_id().value)
            && m2.reverse[inputs[i].spec_id().value] == tid by {
            if i < n - 1 {
                lemma_apply_input_other(prev, tid, inp, inputs[i].spec_id().value);
            } else {
                assert(m2.reverse == prev.reverse.insert(inp.spec_id().value, tid));
            }
        }
    }
}

/// Round trip: inserting a list of inputs with pairwise distinct, fresh
/// identifiers under a transition and reading the transition back yields
/// exactly that list, in order: the recorded ID list is the inputs'
/// identifiers, every identifier resolves, and resolution reconstructs the
/// inputs.
pub proof fn lemma_insert_get_round_trip(m: StoreModel, tid: TransitionID, inputs: Seq<Input>)
    requires
        distinct_input_ids(inputs),
        inputs_fresh(m, inputs),
    ensures
        ({
            let m2 = spec_insert(m, tid, inputs);
            &&& m2.ids.contains_key(tid.value)
            &&& m2.ids[tid.value] == input_ids_of(inputs)
            &&& all_resolve(m2, input_ids_of(inputs))
            &&& lookup_inputs(m2, input_ids_of(inputs)) == inputs
        }),
{
    let m1 = StoreModel { ids: m.ids.insert(tid.value, input_ids_of(inputs)), ..m };
    let m2 = spec_insert(m, tid, inputs);
    assert(inputs_fresh(m1, inputs));
    lemma_apply_prefix_resolution(m1, tid, inputs, inputs.len() as int);
    assert(m2 == apply_inputs_prefix(m1, tid, inputs, inputs.len() as int));
    assert(m2.ids == m1.ids);
    assert forall|i: int| 0 <= i < input_ids_of(inputs).len() implies variant_hits(
        m2,
        #[trigger] input_ids_of(inputs)[i].value,
    ) == 1 by {
        assert(input_ids_of(inputs)[i] == inputs[i].spec_id());
    }
    assert(lookup_inputs(m2, input_ids_of(inputs)) =~= inputs);
}

/// Reverse consistency: after an insert, every inserted input's identifier
/// maps back to the inserting transition in the reverse index.
pub proof fn lemma_insert_reverse_consistency(m: StoreModel, tid: TransitionID, inputs: Seq<Input>)
    ensures
        ({
            let m2 = spec_insert(m, tid, inputs);
            forall|i: int|
                0 <= i < inputs.len() ==> m2.reverse.contains_key(
                    #[trigger] inputs[i].spec_id().value,
                ) && m2.reverse[inputs[i].spec_id().value] == tid
        }),
{
    let m1 = StoreModel { ids: m.ids.insert(tid.value, input_ids_of(inputs)), ..m };
    lemma_apply_prefix_reverse(m1, tid, inputs, inputs.len() as int);
}

/// Every input written so far points back at the transition, whatever the
/// identifiers.
proof fn lemma_apply_prefix_reverse(m: StoreModel, tid: TransitionID, inputs: Seq<Input>, n: int)
    requires
        0 <= n <= inputs.len(),
    ensures
        ({
            let m2 = apply_inputs_prefix(m, tid, inputs, n);
            forall|i: int|
                0 <= i < n ==> m2.reverse.contains_key(#[trigger] inputs[i].spec_id().value)
                    && m2.reverse[inputs[i].spec_id().value] == tid
        }),
    decreases n,
{
    if n > 0 {
        lemma_apply_prefix_reverse(m, tid, inputs, n - 1);
        let prev = apply_inputs_prefix(m, tid, inputs, n - 1);
        let inp = inputs[n - 1];
        let m2 = apply_input(prev, tid, inp);
        assert(m2.reverse == prev.reverse.insert(inp.spec_id().value, tid));
    }
}

/// Exclusive membership: after inserting inputs with pairwise distinct,
/// fresh identifiers, exactly one of the five variant maps holds each
/// inserted identifier.
pub proof fn lemma_insert_exclusive_membership(m: StoreModel, tid: TransitionID, inputs: Seq<Input>)
    requires
        distinct_input_ids(inputs),
        inputs_fresh(m, inputs),
    ensures
        forall|i: int|
            0 <= i < inputs.len() ==> variant_hits(
                spec_insert(m, tid, inputs),
                #[trigger] inputs[i].spec_id().value,
            ) == 1,
{
    let m1 = StoreModel { ids: m.ids.insert(tid.value, input_ids_of(inputs)), ..m };
    assert(inputs_fresh(m1, inputs));
    lemma_apply_prefix_resolution(m1, tid, inputs, inputs.len() as int);
}

/// No-op removal: removing a transition that records no inputs changes
/// nothing.
pub proof fn lemma_remove_noop(m: StoreModel, tid: TransitionID)
    requires
        !m.ids.contains_key(tid.value),
    ensures
        spec_remove(m, tid) == m,
{
}

/// Erasing the first `n` listed identifiers leaves none of them in the
/// reverse index or any variant map, drops the tag of each that the source
/// state records, and leaves the forward index alone.
proof fn lemma_remove_prefix_effects(m: StoreModel, src: StoreModel, ids: Seq<Field>, n: int)
    requires
        0 <= n <= ids.len(),
    ensures
        ({
            let m2 = remove_ids_prefix(m, src, ids, n);
            &&& forall|i: int|
                0 <= i < n ==> !m2.reverse.contains_key(#[trigger] ids[i].value)
            &&& forall|i: int| 0 <= i < n ==> variant_hits(m2, #[trigger] ids[i].value) == 0
            &&& forall|i: int|
                0 <= i < n && src.record.contains_key(#[trigger] ids[i].value)
                    ==> !m2.record_tag.contains_key(src.record[ids[i].value].0.value)
            &&& m2.ids == m.ids
        }),
    decreases n,
{
    if n > 0 {
        lemma_remove_prefix_effects(m, src, ids, n - 1);
        let prev = remove_ids_prefix(m, src, ids, n - 1);
        let m2 = remove_id(prev, src, ids[n - 1].value);
    }
}

/// Tombstone: after removing a transition, its forward entry is gone, none
/// of its former input identifiers is found by the reverse lookup or by any
/// of the five variant maps, and the tag of each of its former record
/// inputs is gone from the tag index.
pub proof fn lemma_remove_tombstone(m: StoreModel, tid: TransitionID)
    requires
        m.ids.contains_key(tid.value),
    ensures
        ({
            let m2 = spec_remove(m, tid);
            let ids = m.ids[tid.value];
            &&& !m2.ids.contains_key(tid.value)
            &&& forall|i: int|
                0 <= i < ids.len() ==> !m2.reverse.contains_key(#[trigger] ids[i].value)
            &&& forall|i: int| 0 <= i < ids.len() ==> variant_hits(m2, #[trigger] ids[i].value) == 0
            &&& forall|i: int|
                0 <= i < ids.len() && m.record.contains_key(#[trigger] ids[i].value)
                    ==> !m2.record_tag.contains_key(m.record[ids[i].value].0.value)
        }),
{
    let ids = m.ids[tid.value];
    let m1 = StoreModel { ids: m.ids.remove(tid.value), ..m };
    lemma_remove_prefix_effects(m1, m, ids, ids.len() as int);
}

} // verus!
