//! The mathematical model of the eight indices, and the meaning of the
//! storage operations on that model.
//!
//! Each index is modelled as a map keyed by the numeric value of the
//! identifier it is addressed by. The contracts of the storage backend and of
//! the store façade are stated over a [`StoreModel`], and the laws about the
//! operations are proved over it.

use vstd::prelude::*;

use crate::types::{Ciphertext, Field, Input, Origin, Plaintext, TransitionID};

verus! {

/// The visible contents of the eight indices.
#[verifier::ext_equal]
pub ghost struct StoreModel {
    /// Transition ID to the ordered input IDs of its inputs.
    pub ids: Map<u128, Seq<Field>>,
    /// Input ID to the transition ID that consumed it.
    pub reverse: Map<u128, TransitionID>,
    /// Constant input ID to its optional plaintext.
    pub constant: Map<u128, Option<Plaintext>>,
    /// Public input ID to its optional plaintext.
    pub public: Map<u128, Option<Plaintext>>,
    /// Private input ID to its optional ciphertext.
    pub private: Map<u128, Option<Ciphertext>>,
    /// Serial number to the tag and origin of the consumed record.
    pub record: Map<u128, (Field, Origin)>,
    /// Tag to the serial number it aliases.
    pub record_tag: Map<u128, Field>,
    /// External record input IDs.
    pub external: Map<u128, ()>,
}

impl StoreModel {
    /// The model of a freshly opened store: every index empty.
    pub open spec fn empty() -> StoreModel {
        StoreModel {
            ids: Map::empty(),
            reverse: Map::empty(),
            constant: Map::empty(),
            public: Map::empty(),
            private: Map::empty(),
            record: Map::empty(),
            record_tag: Map::empty(),
            external: Map::empty(),
        }
    }
}

/// The identifiers of a list of inputs, in order.
pub open spec fn input_ids_of(inputs: Seq<Input>) -> Seq<Field> {
    inputs.map_values(|inp: Input| inp.spec_id())
}

/// The numeric values of a list of field elements, in order.
pub open spec fn field_values(s: Seq<Field>) -> Seq<u128> {
    s.map_values(|f: Field| f.value)
}

/// One input written into the indices under a transition: its reverse
/// mapping, and its value routed into exactly one variant map (a record also
/// writes the tag index).
pub open spec fn apply_input(m: StoreModel, tid: TransitionID, inp: Input) -> StoreModel {
    let m1 = StoreModel { reverse: m.reverse.insert(inp.spec_id().value, tid), ..m };
    match inp {
        Input::Constant(id, c) => StoreModel { constant: m1.constant.insert(id.value, c), ..m1 },
        Input::Public(id, p) => StoreModel { public: m1.public.insert(id.value, p), ..m1 },
        Input::Private(id, p) => StoreModel { private: m1.private.insert(id.value, p), ..m1 },
        Input::Record(serial_number, tag, origin) => StoreModel {
            record_tag: m1.record_tag.insert(tag.value, serial_number),
            record: m1.record.insert(serial_number.value, (tag, origin)),
            ..m1
        },
        Input::ExternalRecord(id) => StoreModel {
            external: m1.external.insert(id.value, ()),
            ..m1
        },
    }
}

/// The first `n` inputs of the list written in order.
pub open spec fn apply_inputs_prefix(
    m: StoreModel,
    tid: TransitionID,
    inputs: Seq<Input>,
    n: int,
) -> StoreModel
    decreases n,
{
    if n <= 0 {
        m
    } else {
        apply_input(apply_inputs_prefix(m, tid, inputs, n - 1), tid, inputs[n - 1])
    }
}

/// What a committed `insert` does to the model: the ordered input ID list is
/// recorded under the transition, and every input is written into the
/// indices.
pub open spec fn spec_insert(m: StoreModel, tid: TransitionID, inputs: Seq<Input>) -> StoreModel {
    let m1 = StoreModel { ids: m.ids.insert(tid.value, input_ids_of(inputs)), ..m };
    apply_inputs_prefix(m1, tid, inputs, inputs.len() as int)
}

/// One input ID erased from the indices. Lookups go against `src`, the state
/// the removal was planned from: the tag index entry is dropped only when
/// `src` shows a record under the ID, and then for the tag `src` records.
pub open spec fn remove_id(m: StoreModel, src: StoreModel, id: u128) -> StoreModel {
    let m1 = StoreModel { reverse: m.reverse.remove(id), ..m };
    let m2 = if src.record.contains_key(id) {
        StoreModel { record_tag: m1.record_tag.remove(src.record[id].0.value), ..m1 }
    } else {
        m1
    };
    StoreModel {
        constant: m2.constant.remove(id),
        public: m2.public.remove(id),
        private: m2.private.remove(id),
        record: m2.record.remove(id),
        external: m2.external.remove(id),
        ..m2
    }
}

/// The first `n` listed input IDs erased in order.
pub open spec fn remove_ids_prefix(
    m: StoreModel,
    src: StoreModel,
    ids: Seq<Field>,
    n: int,
) -> StoreModel
    decreases n,
{
    if n <= 0 {
        m
    } else {
        remove_id(remove_ids_prefix(m, src, ids, n - 1), src, ids[n - 1].value)
    }
}

/// What a committed `remove` does to the model `m`, planned from the state
/// `src`: a no-op when `src` lists no inputs for the transition, otherwise
/// the ID list entry and every listed input leave all indices.
pub open spec fn spec_remove_using(m: StoreModel, src: StoreModel, tid: TransitionID) -> StoreModel {
    if !src.ids.contains_key(tid.value) {
        m
    } else {
        let ids = src.ids[tid.value];
        let m1 = StoreModel { ids: m.ids.remove(tid.value), ..m };
        remove_ids_prefix(m1, src, ids, ids.len() as int)
    }
}

/// A committed `remove` outside any caller batch: planned from and applied to
/// the same state.
pub open spec fn spec_remove(m: StoreModel, tid: TransitionID) -> StoreModel {
    spec_remove_using(m, m, tid)
}

/// How many of the five variant maps hold the given input ID.
pub open spec fn variant_hits(m: StoreModel, id: u128) -> int {
    (if m.constant.contains_key(id) {
        1int
    } else {
        0int
    }) + (if m.public.contains_key(id) {
        1int
    } else {
        0int
    }) + (if m.private.contains_key(id) {
        1int
    } else {
        0int
    }) + (if m.record.contains_key(id) {
        1int
    } else {
        0int
    }) + (if m.external.contains_key(id) {
        1int
    } else {
        0int
    })
}

/// An input ID resolves when exactly one variant map holds it; zero hits
/// signal a missing input, several an ambiguous one.
pub open spec fn resolves(m: StoreModel, id: u128) -> bool {
    variant_hits(m, id) == 1
}

/// The typed input reconstructed for an ID; meaningful when the ID resolves.
pub open spec fn lookup_input(m: StoreModel, id: u128) -> Input {
    if m.constant.contains_key(id) {
        Input::Constant(Field { value: id }, m.constant[id])
    } else if m.public.contains_key(id) {
        Input::Public(Field { value: id }, m.public[id])
    } else if m.private.contains_key(id) {
        Input::Private(Field { value: id }, m.private[id])
    } else if m.record.contains_key(id) {
        Input::Record(Field { value: id }, m.record[id].0, m.record[id].1)
    } else {
        Input::ExternalRecord(Field { value: id })
    }
}

pub open spec fn all_resolve(m: StoreModel, ids: Seq<Field>) -> bool {
    forall|i: int| 0 <= i < ids.len() ==> resolves(m, ids[i].value)
}

/// The typed inputs reconstructed for an ID list, in order.
pub open spec fn lookup_inputs(m: StoreModel, ids: Seq<Field>) -> Seq<Input> {
    ids.map_values(|f: Field| lookup_input(m, f.value))
}

/// The position of the first input ID of the list that does not resolve.
pub open spec fn first_unresolved(m: StoreModel, ids: Seq<Field>) -> int
    decreases ids.len(),
{
    if ids.len() == 0 {
        0
    } else if !resolves(m, ids[0].value) {
        0
    } else {
        1 + first_unresolved(m, ids.drop_first())
    }
}

/// When every ID before `i` resolves and the ID at `i` does not, `i` is the
/// first unresolved position.
pub proof fn lemma_first_unresolved_at(m: StoreModel, ids: Seq<Field>, i: int)
    requires
        0 <= i < ids.len(),
        forall|j: int| 0 <= j < i ==> resolves(m, ids[j].value),
        !resolves(m, ids[i].value),
    ensures
        first_unresolved(m, ids) == i,
    decreases i,
{
    if i > 0 {
        assert(resolves(m, ids[0].value));
        assert(ids.drop_first()[i - 1] == ids[i]);
        assert forall|j: int| 0 <= j < i - 1 implies resolves(m, ids.drop_first()[j].value) by {
            assert(ids.drop_first()[j] == ids[j + 1]);
        }
        lemma_first_unresolved_at(m, ids.drop_first(), i - 1);
    }
}

} // verus!
