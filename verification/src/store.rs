//! The transition input store: a thin, cloneable façade over a storage
//! backend, offering the write operations, the existence checks, and
//! read-only iteration over every index.
//!
//! Iteration has snapshot semantics: each iteration method materializes the
//! committed entries of its index into a list at the time of the call, so a
//! list already returned is unaffected by later writes or batch commits.
//! Iteration order is the backend's native order and otherwise unspecified.

use vstd::prelude::*;

use crate::model::{
    all_resolve, field_values, first_unresolved, lookup_inputs, spec_insert, spec_remove,
    spec_remove_using, variant_hits, StoreModel,
};
use crate::storage::{InputStorage, StoreError};
use crate::types::{Ciphertext, Field, Input, Origin, Plaintext, TransitionID};

verus! {

/// The transition input store.
#[derive(Clone)]
pub struct InputStore<I: InputStorage> {
    /// The input storage backend.
    storage: I,
}

impl<I: InputStorage> InputStore<I> {
    /// What readers of the store see.
    pub closed spec fn committed(&self) -> StoreModel {
        self.storage.committed()
    }

    /// What committing the open batch would make visible.
    pub closed spec fn pending(&self) -> StoreModel {
        self.storage.pending()
    }

    /// Whether an atomic batch is open.
    pub closed spec fn in_batch(&self) -> bool {
        self.storage.in_batch()
    }

    pub closed spec fn wf(&self) -> bool {
        self.storage.wf()
    }

    pub closed spec fn dev_id(&self) -> Option<u16> {
        self.storage.dev_id()
    }

    /// Initializes the transition input store.
    pub fn open(dev: Option<u16>) -> (r: Result<Self, StoreError>)
        ensures
            r is Ok ==> (r->Ok_0).wf() && (r->Ok_0).committed() == StoreModel::empty() && !(
            r->Ok_0).in_batch() && (r->Ok_0).pending() == StoreModel::empty() && (
            r->Ok_0).dev_id() == dev,
    {
        let storage = I::open(dev)?;
        Ok(InputStore { storage })
    }

    /// Initializes a transition input store from storage.
    pub fn from(storage: I) -> (r: Self)
        ensures
            r.wf() == storage.wf(),
            r.committed() == storage.committed(),
            r.pending() == storage.pending(),
            r.in_batch() == storage.in_batch(),
            r.dev_id() == storage.dev_id(),
    {
        InputStore { storage }
    }

    /// Stores the given transition ID and inputs into storage, as one
    /// atomic unit: either the transition becomes fully visible in all
    /// indices, or in none.
    pub fn insert(&mut self, transition_id: TransitionID, inputs: &Vec<Input>) -> (r: Result<
        (),
        StoreError,
    >)
        requires
            old(self).wf(),
        ensures
            final(self).wf(),
            final(self).dev_id() == old(self).dev_id(),
            r is Err ==> r->Err_0 is Backend && !final(self).in_batch() && final(self).committed()
                == old(self).committed() && final(self).pending() == final(self).committed(),
            !old(self).in_batch() && r is Ok ==> !final(self).in_batch() && final(self).committed()
                == spec_insert(old(self).committed(), transition_id, inputs@) && final(
            self).pending() == final(self).committed(),
            old(self).in_batch() && r is Ok ==> final(self).in_batch() && final(self).committed()
                == old(self).committed() && final(self).pending() == spec_insert(
                old(self).pending(),
                transition_id,
                inputs@,
            ),
    {
        self.storage.insert(transition_id, inputs)
    }

    /// Removes the inputs recorded for the given transition ID from every
    /// index, as one atomic unit; removing an absent transition succeeds and
    /// changes nothing.
    pub fn remove(&mut self, transition_id: &TransitionID) -> (r: Result<(), StoreError>)
        requires
            old(self).wf(),
        ensures
            final(self).wf(),
            final(self).dev_id() == old(self).dev_id(),
            r is Err ==> r->Err_0 is Backend && !final(self).in_batch() && final(self).committed()
                == old(self).committed() && final(self).pending() == final(self).committed(),
            !old(self).in_batch() && r is Ok ==> !final(self).in_batch() && final(self).committed()
                == spec_remove(old(self).committed(), *transition_id) && final(self).pending()
                == final(self).committed(),
            old(self).in_batch() && r is Ok ==> final(self).in_batch() && final(self).committed()
                == old(self).committed() && final(self).pending() == spec_remove_using(
                old(self).pending(),
                old(self).committed(),
                *transition_id,
            ),
    {
        self.storage.remove(transition_id)
    }

    /// Starts an atomic batch write operation.
    pub fn start_atomic(&mut self)
        requires
            old(self).wf(),
        ensures
            final(self).wf(),
            final(self).in_batch(),
            final(self).committed() == old(self).committed(),
            final(self).pending() == old(self).pending(),
            final(self).dev_id() == old(self).dev_id(),
    {
        self.storage.start_atomic();
    }

    /// Checks if an atomic batch is in progress.
    pub fn is_atomic_in_progress(&self) -> (r: bool)
        requires
            self.wf(),
        ensures
            r == self.in_batch(),
    {
        self.storage.is_atomic_in_progress()
    }

    /// Aborts an atomic batch write operation, discarding every staged
    /// write.
    pub fn abort_atomic(&mut self)
        requires
            old(self).wf(),
        ensures
            final(self).wf(),
            !final(self).in_batch(),
            final(self).committed() == old(self).committed(),
            final(self).pending() == final(self).committed(),
            final(self).dev_id() == old(self).dev_id(),
    {
        self.storage.abort_atomic();
    }

    /// Finishes an atomic batch write operation: on success all staged
    /// writes become visible together; on failure none of them do.
    pub fn finish_atomic(&mut self) -> (r: Result<(), StoreError>)
        requires
            old(self).wf(),
        ensures
            final(self).wf(),
            !final(self).in_batch(),
            final(self).pending() == final(self).committed(),
            final(self).dev_id() == old(self).dev_id(),
            r is Ok ==> final(self).committed() == old(self).pending(),
            r is Err ==> r->Err_0 is Backend && final(self).committed() == old(self).committed(),
    {
        self.storage.finish_atomic()
    }

    /// Returns the optional development ID.
    pub fn dev(&self) -> (r: Option<u16>)
        ensures
            r == self.dev_id(),
    {
        self.storage.dev()
    }

    /// Returns the ordered input IDs recorded for the given transition ID,
    /// or an empty list when none are recorded.
    pub fn get_input_ids(&self, transition_id: &TransitionID) -> (r: Result<Vec<Field>, StoreError>)
        requires
            self.wf(),
        ensures
            r is Ok,
            (r->Ok_0)@ == (if self.committed().ids.contains_key(transition_id.value) {
                self.committed().ids[transition_id.value]
            } else {
                Seq::<Field>::empty()
            }),
    {
        self.storage.get_ids(transition_id)
    }

    /// Reconstructs the typed inputs recorded for the given transition ID,
    /// in order. Exactly one variant map must hold each input ID: zero hits
    /// are reported as a missing input, several as an ambiguous one.
    pub fn get_inputs(&self, transition_id: &TransitionID) -> (r: Result<Vec<Input>, StoreError>)
        requires
            self.wf(),
        ensures
            ({
                let m = self.committed();
                let tidv = transition_id.value;
                if !m.ids.contains_key(tidv) {
                    r is Ok && (r->Ok_0)@ == Seq::<Input>::empty()
                } else {
                    let ids = m.ids[tidv];
                    if all_resolve(m, ids) {
                        r is Ok && (r->Ok_0)@ == lookup_inputs(m, ids)
                    } else {
                        let i = first_unresolved(m, ids);
                        r is Err && r->Err_0 == (if variant_hits(m, ids[i].value) == 0 {
                            StoreError::MissingInput(ids[i], *transition_id)
                        } else {
                            StoreError::AmbiguousInput(ids[i], *transition_id)
                        })
                    }
                }
            }),
    {
        self.storage.get(transition_id)
    }

    /// Returns the transition ID that consumed the given input ID, or none.
    pub fn find_transition_id(&self, input_id: &Field) -> (r: Result<
        Option<TransitionID>,
        StoreError,
    >)
        requires
            self.wf(),
        ensures
            r is Ok,
            r->Ok_0 == (if self.committed().reverse.contains_key(input_id.value) {
                Some(self.committed().reverse[input_id.value])
            } else {
                None::<TransitionID>
            }),
    {
        self.storage.find_transition_id(input_id)
    }

    /// Returns whether the given input ID exists.
    pub fn contains_input_id(&self, input_id: &Field) -> (r: Result<bool, StoreError>)
        requires
            self.wf(),
        ensures
            r is Ok,
            r->Ok_0 == self.committed().reverse.contains_key(input_id.value),
    {
        self.storage.contains_input_id(input_id)
    }

    /// Returns whether the given serial number exists.
    pub fn contains_serial_number(&self, serial_number: &Field) -> (r: Result<bool, StoreError>)
        requires
            self.wf(),
        ensures
            r is Ok,
            r->Ok_0 == self.committed().record.contains_key(serial_number.value),
    {
        self.storage.contains_serial_number(serial_number)
    }

    /// Returns whether the given tag exists.
    pub fn contains_tag(&self, tag: &Field) -> (r: Result<bool, StoreError>)
        requires
            self.wf(),
        ensures
            r is Ok,
            r->Ok_0 == self.committed().record_tag.contains_key(tag.value),
    {
        self.storage.contains_tag(tag)
    }

    /// Returns the input IDs of all transition inputs.
    pub fn input_ids(&self) -> (r: Vec<Field>)
        requires
            self.wf(),
        ensures
            field_values(r@).no_duplicates(),
            forall|k: u128|
                field_values(r@).contains(k) <==> self.committed().reverse.contains_key(k),
    {
        self.storage.input_ids()
    }

    /// Returns the input IDs of all constant transition inputs.
    pub fn constant_input_ids(&self) -> (r: Vec<Field>)
        requires
            self.wf(),
        ensures
            field_values(r@).no_duplicates(),
            forall|k: u128|
                field_values(r@).contains(k) <==> self.committed().constant.contains_key(k),
    {
        self.storage.constant_input_ids()
    }

    /// Returns the input IDs of all public transition inputs.
    pub fn public_input_ids(&self) -> (r: Vec<Field>)
        requires
            self.wf(),
        ensures
            field_values(r@).no_duplicates(),
            forall|k: u128|
                field_values(r@).contains(k) <==> self.committed().public.contains_key(k),
    {
        self.storage.public_input_ids()
    }

    /// Returns the input IDs of all private transition inputs.
    pub fn private_input_ids(&self) -> (r: Vec<Field>)
        requires
            self.wf(),
        ensures
            field_values(r@).no_duplicates(),
            forall|k: u128|
                field_values(r@).contains(k) <==> self.committed().private.contains_key(k),
    {
        self.storage.private_input_ids()
    }

    /// Returns the serial numbers of all record transition inputs.
    pub fn serial_numbers(&self) -> (r: Vec<Field>)
        requires
            self.wf(),
        ensures
            field_values(r@).no_duplicates(),
            forall|k: u128|
                field_values(r@).contains(k) <==> self.committed().record.contains_key(k),
    {
        self.storage.serial_numbers()
    }

    /// Returns the input IDs of all external record transition inputs.
    pub fn external_input_ids(&self) -> (r: Vec<Field>)
        requires
            self.wf(),
        ensures
            field_values(r@).no_duplicates(),
            forall|k: u128|
                field_values(r@).contains(k) <==> self.committed().external.contains_key(k),
    {
        self.storage.external_input_ids()
    }

    /// Returns the constant input values whose content is retained, skipping
    /// pruned entries.
    pub fn constant_inputs(&self) -> (r: Vec<Plaintext>)
        requires
            self.wf(),
        ensures
            forall|p: Plaintext|
                r@.contains(p) <==> exists|k: u128|
                    #[trigger] self.committed().constant.contains_key(k)
                        && self.committed().constant[k] == Some(p),
    {
        self.storage.constant_inputs()
    }

    /// Returns the public input values whose content is retained, skipping
    /// pruned entries.
    pub fn public_inputs(&self) -> (r: Vec<Plaintext>)
        requires
            self.wf(),
        ensures
            forall|p: Plaintext|
                r@.contains(p) <==> exists|k: u128|
                    #[trigger] self.committed().public.contains_key(k)
                        && self.committed().public[k] == Some(p),
    {
        self.storage.public_inputs()
    }

    /// Returns the private input values whose content is retained, skipping
    /// pruned entries.
    pub fn private_inputs(&self) -> (r: Vec<Ciphertext>)
        requires
            self.wf(),
        ensures
            forall|c: Ciphertext|
                r@.contains(c) <==> exists|k: u128|
                    #[trigger] self.committed().private.contains_key(k)
                        && self.committed().private[k] == Some(c),
    {
        self.storage.private_inputs()
    }

    /// Returns the tags of all record transition inputs.
    pub fn tags(&self) -> (r: Vec<Field>)
        requires
            self.wf(),
        ensures
            field_values(r@).no_duplicates(),
            forall|k: u128|
                field_values(r@).contains(k) <==> self.committed().record_tag.contains_key(k),
    {
        self.storage.tags()
    }

    /// Returns the origin of every consumed record.
    pub fn origins(&self) -> (r: Vec<Origin>)
        requires
            self.wf(),
        ensures
            forall|o: Origin|
                r@.contains(o) <==> exists|k: u128|
                    #[trigger] self.committed().record.contains_key(k) && self.committed(
                    ).record[k].1 == o,
    {
        let r = self.storage.origins();
        proof {
            assert forall|o: Origin| r@.contains(o) implies exists|k: u128|
                #[trigger] self.committed().record.contains_key(k) && self.committed().record[k].1
                    == o by {
                let k = choose|k: u128|
                    #[trigger] self.storage.committed().record.contains_key(k)
                        && self.storage.committed().record[k].1 == o;
                assert(self.committed().record.contains_key(k) && self.committed().record[k].1
                    == o);
            }
            assert forall|o: Origin| exists|k: u128|
                #[trigger] self.committed().record.contains_key(k) && self.committed().record[k].1
                    == o implies r@.contains(o) by {
                let k = choose|k: u128|
                    #[trigger] self.committed().record.contains_key(k)
                        && self.committed().record[k].1 == o;
                assert(self.storage.committed().record.contains_key(k)
                    && self.storage.committed().record[k].1 == o);
            }
        }
        r
    }
}

} // verus!
