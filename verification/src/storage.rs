//! The storage backend: the abstract eight-map capability as a trait whose
//! contracts are stated over the [`StoreModel`], and the in-memory backend
//! implementing it.

use vstd::prelude::*;

use crate::memory_map::MemoryMap;
use crate::model::{
    all_resolve, apply_input, apply_inputs_prefix, field_values, first_unresolved, input_ids_of,
    lemma_first_unresolved_at, lookup_input, lookup_inputs, remove_id, remove_ids_prefix, resolves,
    spec_insert, spec_remove, spec_remove_using, variant_hits, StoreModel,
};
use crate::types::{Ciphertext, Field, Input, Origin, Plaintext, TransitionID};

verus! {

/// What a storage operation can report.
///
/// `Backend` is a failure of the underlying map engine, surfaced unmodified;
/// the other two are consistency errors raised by `get` when an input ID of
/// a transition resolves to zero or to several variant maps. Consistency
/// errors signal corruption and are never resolved silently.
#[derive(Clone, Copy, PartialEq, Eq, Debug)]
pub enum StoreError {
    Backend,
    MissingInput(Field, TransitionID),
    AmbiguousInput(Field, TransitionID),
}

/// The abstract capability the shared algorithms are written against: eight
/// cross-referencing indices with an atomic-batch protocol.
///
/// The contracts speak of three views of a backend: `committed`, what
/// readers see; `pending`, what committing the open batch would make
/// visible; and `in_batch`, whether a batch is open. Outside a batch the two
/// views coincide. `insert` and `remove` are each independently atomic: they
/// wrap their writes in a batch of their own unless the caller already
/// opened one, in which case their writes join the caller's batch and become
/// visible only at the caller's `finish_atomic`. A backend error aborts the
/// whole in-flight batch.
pub trait InputStorage: Sized {
    spec fn committed(&self) -> StoreModel;

    spec fn pending(&self) -> StoreModel;

    spec fn in_batch(&self) -> bool;

    spec fn wf(&self) -> bool;

    spec fn dev_id(&self) -> Option<u16>;

    /// Initializes the transition input storage.
    fn open(dev: Option<u16>) -> (r: Result<Self, StoreError>)
        ensures
            r is Ok ==> (r->Ok_0).wf() && (r->Ok_0).committed() == StoreModel::empty() && !(
            r->Ok_0).in_batch() && (r->Ok_0).pending() == StoreModel::empty() && (
            r->Ok_0).dev_id() == dev,
    ;

    /// Returns the optional development ID.
    fn dev(&self) -> (r: Option<u16>)
        ensures
            r == self.dev_id(),
    ;

    /// Starts an atomic batch write operation; all further writes are staged
    /// until the batch finishes or aborts. Starting inside an open batch
    /// does not nest: the batch continues as it is.
    fn start_atomic(&mut self)
        requires
            old(self).wf(),
        ensures
            final(self).wf(),
            final(self).in_batch(),
            final(self).committed() == old(self).committed(),
            final(self).pending() == old(self).pending(),
            final(self).dev_id() == old(self).dev_id(),
    ;

    /// Checks if an atomic batch is in progress.
    fn is_atomic_in_progress(&self) -> (r: bool)
        requires
            self.wf(),
        ensures
            r == self.in_batch(),
    ;

    /// Aborts an atomic batch write operation, discarding every staged
    /// write. A no-op while idle.
    fn abort_atomic(&mut self)
        requires
            old(self).wf(),
        ensures
            final(self).wf(),
            !final(self).in_batch(),
            final(self).committed() == old(self).committed(),
            final(self).pending() == final(self).committed(),
            final(self).dev_id() == old(self).dev_id(),
    ;

    /// Finishes an atomic batch write operation: on success all staged
    /// writes become visible together; on failure none of them do. A no-op
    /// while idle.
    fn finish_atomic(&mut self) -> (r: Result<(), StoreError>)
        requires
            old(self).wf(),
        ensures
            final(self).wf(),
            !final(self).in_batch(),
            final(self).pending() == final(self).committed(),
            final(self).dev_id() == old(self).dev_id(),
            r is Ok ==> final(self).committed() == old(self).pending(),
            r is Err ==> r->Err_0 is Backend && final(self).committed() == old(self).committed(),
    ;

    /// Stores the given transition ID and inputs into storage: the ordered
    /// input ID list, each input's reverse mapping, and each input's value
    /// in exactly one variant map (records also populate the tag index).
    /// Either the transition becomes fully visible in all indices, or — on a
    /// backend error, which aborts the in-flight batch — in none.
    fn insert(&mut self, transition_id: TransitionID, inputs: &Vec<Input>) -> (r: Result<
        (),
        StoreError,
    >)
        requires
            old(self).wf(),
        ensures
            final(self).wf(),
            final(self).dev_id() == old(self).dev_id(),
            r is Err ==> r->Err_0 is Backend && !final(self).in_batch() && final(self).committed()
                == old(self).committed() && final(self).pending() == final(self).committed(),
            !old(self).in_batch() && r is Ok ==> !final(self).in_batch() && final(self).committed()
                == spec_insert(old(self).committed(), transition_id, inputs@) && final(
            self).pending() == final(self).committed(),
            old(self).in_batch() && r is Ok ==> final(self).in_batch() && final(self).committed()
                == old(self).committed() && final(self).pending() == spec_insert(
                old(self).pending(),
                transition_id,
                inputs@,
            ),
    ;

    /// Removes the inputs recorded for the given transition ID from every
    /// index, as one atomic unit. Removing an absent transition succeeds and
    /// changes nothing. The input ID list and the record lookups are read
    /// from the committed state the removal starts from.
    fn remove(&mut self, transition_id: &TransitionID) -> (r: Result<(), StoreError>)
        requires
            old(self).wf(),
        ensures
            final(self).wf(),
            final(self).dev_id() == old(self).dev_id(),
            r is Err ==> r->Err_0 is Backend && !final(self).in_batch() && final(self).committed()
                == old(self).committed() && final(self).pending() == final(self).committed(),
            !old(self).in_batch() && r is Ok ==> !final(self).in_batch() && final(self).committed()
                == spec_remove(old(self).committed(), *transition_id) && final(self).pending()
                == final(self).committed(),
            old(self).in_batch() && r is Ok ==> final(self).in_batch() && final(self).committed()
                == old(self).committed() && final(self).pending() == spec_remove_using(
                old(self).pending(),
                old(self).committed(),
                *transition_id,
            ),
    ;

    /// Returns the transition ID that consumed the given input ID, or none.
    fn find_transition_id(&self, input_id: &Field) -> (r: Result<Option<TransitionID>, StoreError>)
        requires
            self.wf(),
        ensures
            r is Ok,
            r->Ok_0 == (if self.committed().reverse.contains_key(input_id.value) {
                Some(self.committed().reverse[input_id.value])
            } else {
                None::<TransitionID>
            }),
    ;

    /// Returns the ordered input IDs recorded for the given transition ID,
    /// or an empty list when none are recorded; absence is not an error.
    fn get_ids(&self, transition_id: &TransitionID) -> (r: Result<Vec<Field>, StoreError>)
        requires
            self.wf(),
        ensures
            r is Ok,
            (r->Ok_0)@ == (if self.committed().ids.contains_key(transition_id.value) {
                self.committed().ids[transition_id.value]
            } else {
                Seq::<Field>::empty()
            }),
    ;

    /// Reconstructs the typed inputs recorded for the given transition ID,
    /// in order, by probing all five variant maps per input ID. Exactly one
    /// map must hold each ID: zero hits are reported as a missing input,
    /// several as an ambiguous one, naming the first offending ID.
    fn get(&self, transition_id: &TransitionID) -> (r: Result<Vec<Input>, StoreError>)
        requires
            self.wf(),
        ensures
            ({
                let m = self.committed();
                let tidv = transition_id.value;
                if !m.ids.contains_key(tidv) {
                    r is Ok && (r->Ok_0)@ == Seq::<Input>::empty()
                } else {
                    let ids = m.ids[tidv];
                    if all_resolve(m, ids) {
                        r is Ok && (r->Ok_0)@ == lookup_inputs(m, ids)
                    } else {
                        let i = first_unresolved(m, ids);
                        r is Err && r->Err_0 == (if variant_hits(m, ids[i].value) == 0 {
                            StoreError::MissingInput(ids[i], *transition_id)
                        } else {
                            StoreError::AmbiguousInput(ids[i], *transition_id)
                        })
                    }
                }
            }),
    ;

    /// Returns whether the given input ID exists in the reverse index.
    fn contains_input_id(&self, input_id: &Field) -> (r: Result<bool, StoreError>)
        requires
            self.wf(),
        ensures
            r is Ok,
            r->Ok_0 == self.committed().reverse.contains_key(input_id.value),
    ;

    /// Returns whether the given serial number exists in the record index.
    fn contains_serial_number(&self, serial_number: &Field) -> (r: Result<bool, StoreError>)
        requires
            self.wf(),
        ensures
            r is Ok,
            r->Ok_0 == self.committed().record.contains_key(serial_number.value),
    ;

    /// Returns whether the given tag exists in the tag index.
    fn contains_tag(&self, tag: &Field) -> (r: Result<bool, StoreError>)
        requires
            self.wf(),
        ensures
            r is Ok,
            r->Ok_0 == self.committed().record_tag.contains_key(tag.value),
    ;

    /// Returns every input ID, in the backend's native order.
    fn input_ids(&self) -> (r: Vec<Field>)
        requires
            self.wf(),
        ensures
            field_values(r@).no_duplicates(),
            forall|k: u128|
                field_values(r@).contains(k) <==> self.committed().reverse.contains_key(k),
    ;

    /// Returns every constant input ID, in the backend's native order.
    fn constant_input_ids(&self) -> (r: Vec<Field>)
        requires
            self.wf(),
        ensures
            field_values(r@).no_duplicates(),
            forall|k: u128|
                field_values(r@).contains(k) <==> self.committed().constant.contains_key(k),
    ;

    /// Returns every public input ID, in the backend's native order.
    fn public_input_ids(&self) -> (r: Vec<Field>)
        requires
            self.wf(),
        ensures
            field_values(r@).no_duplicates(),
            forall|k: u128|
                field_values(r@).contains(k) <==> self.committed().public.contains_key(k),
    ;

    /// Returns every private input ID, in the backend's native order.
    fn private_input_ids(&self) -> (r: Vec<Field>)
        requires
            self.wf(),
        ensures
            field_values(r@).no_duplicates(),
            forall|k: u128|
                field_values(r@).contains(k) <==> self.committed().private.contains_key(k),
    ;

    /// Returns every serial number, in the backend's native order.
    fn serial_numbers(&self) -> (r: Vec<Field>)
        requires
            self.wf(),
        ensures
            field_values(r@).no_duplicates(),
            forall|k: u128|
                field_values(r@).contains(k) <==> self.committed().record.contains_key(k),
    ;

    /// Returns every external record input ID, in the backend's native
    /// order.
    fn external_input_ids(&self) -> (r: Vec<Field>)
        requires
            self.wf(),
        ensures
            field_values(r@).no_duplicates(),
            forall|k: u128|
                field_values(r@).contains(k) <==> self.committed().external.contains_key(k),
    ;

    /// Returns every record tag, in the backend's native order.
    fn tags(&self) -> (r: Vec<Field>)
        requires
            self.wf(),
        ensures
            field_values(r@).no_duplicates(),
            forall|k: u128|
                field_values(r@).contains(k) <==> self.committed().record_tag.contains_key(k),
    ;

    /// Returns the constant input values whose content is retained, skipping
    /// pruned entries.
    fn constant_inputs(&self) -> (r: Vec<Plaintext>)
        requires
            self.wf(),
        ensures
            forall|p: Plaintext|
                r@.contains(p) <==> exists|k: u128|
                    #[trigger] self.committed().constant.contains_key(k)
                        && self.committed().constant[k] == Some(p),
    ;

    /// Returns the public input values whose content is retained, skipping
    /// pruned entries.
    fn public_inputs(&self) -> (r: Vec<Plaintext>)
        requires
            self.wf(),
        ensures
            forall|p: Plaintext|
                r@.contains(p) <==> exists|k: u128|
                    #[trigger] self.committed().public.contains_key(k)
                        && self.committed().public[k] == Some(p),
    ;

    /// Returns the private input values whose content is retained, skipping
    /// pruned entries.
    fn private_inputs(&self) -> (r: Vec<Ciphertext>)
        requires
            self.wf(),
        ensures
            forall|c: Ciphertext|
                r@.contains(c) <==> exists|k: u128|
                    #[trigger] self.committed().private.contains_key(k)
                        && self.committed().private[k] == Some(c),
    ;

    /// Returns the origin of every consumed record.
    fn origins(&self) -> (r: Vec<Origin>)
        requires
            self.wf(),
        ensures
            forall|o: Origin|
                r@.contains(o) <==> exists|k: u128|
                    #[trigger] self.committed().record.contains_key(k) && self.committed(
                    ).record[k].1 == o,
    ;
}

/// An in-memory transition input storage: eight [`MemoryMap`] indices, the
/// optional development ID, and a write-fault injector standing in for the
/// failures a physical engine could report.
#[derive(Clone)]
pub struct InputMemory {
    /// The mapping of transition ID to input IDs.
    id_map: MemoryMap<Vec<Field>>,
    /// The mapping of input ID to transition ID.
    reverse_id_map: MemoryMap<TransitionID>,
    /// The mapping of constant input ID to optional plaintext.
    constant: MemoryMap<Option<Plaintext>>,
    /// The mapping of public input ID to optional plaintext.
    public: MemoryMap<Option<Plaintext>>,
    /// The mapping of private input ID to optional ciphertext.
    private: MemoryMap<Option<Ciphertext>>,
    /// The mapping of serial number to tag and origin.
    record: MemoryMap<(Field, Origin)>,
    /// The mapping of record tag to serial number.
    record_tag: MemoryMap<Field>,
    /// The external record input IDs.
    external_record: MemoryMap<()>,
    /// The optional development ID.
    dev: Option<u16>,
    /// How many further writes succeed before one is made to fail; `None`
    /// never fails.
    fault_countdown: Option<u64>,
}

impl InputMemory {
    pub closed spec fn committed_model(&self) -> StoreModel {
        StoreModel {
            ids: self.id_map.committed().map_values(|v: Vec<Field>| v@),
            reverse: self.reverse_id_map.committed(),
            constant: self.constant.committed(),
            public: self.public.committed(),
            private: self.private.committed(),
            record: self.record.committed(),
            record_tag: self.record_tag.committed(),
            external: self.external_record.committed(),
        }
    }

    pub closed spec fn pending_model(&self) -> StoreModel {
        StoreModel {
            ids: self.id_map.pending().map_values(|v: Vec<Field>| v@),
            reverse: self.reverse_id_map.pending(),
            constant: self.constant.pending(),
            public: self.public.pending(),
            private: self.private.pending(),
            record: self.record.pending(),
            record_tag: self.record_tag.pending(),
            external: self.external_record.pending(),
        }
    }

    pub closed spec fn batch_open(&self) -> bool {
        self.id_map.in_batch()
    }

    pub closed spec fn inv(&self) -> bool {
        &&& self.id_map.wf()
        &&& self.reverse_id_map.wf()
        &&& self.constant.wf()
        &&& self.public.wf()
        &&& self.private.wf()
        &&& self.record.wf()
        &&& self.record_tag.wf()
        &&& self.external_record.wf()
        &&& self.reverse_id_map.in_batch() == self.id_map.in_batch()
        &&& self.constant.in_batch() == self.id_map.in_batch()
        &&& self.public.in_batch() == self.id_map.in_batch()
        &&& self.private.in_batch() == self.id_map.in_batch()
        &&& self.record.in_batch() == self.id_map.in_batch()
        &&& self.record_tag.in_batch() == self.id_map.in_batch()
        &&& self.external_record.in_batch() == self.id_map.in_batch()
    }

    /// The armed write-fault countdown.
    pub closed spec fn faults(&self) -> Option<u64> {
        self.fault_countdown
    }

    /// Arms the write-fault injector: after `countdown` further successful
    /// writes the next write reports a backend error; `None` disarms it.
    pub fn set_write_fault(&mut self, countdown: Option<u64>)
        ensures
            final(self).committed_model() == old(self).committed_model(),
            final(self).pending_model() == old(self).pending_model(),
            final(self).batch_open() == old(self).batch_open(),
            final(self).inv() == old(self).inv(),
            final(self).dev_value() == old(self).dev_value(),
            final(self).faults() == countdown,
    {
        self.fault_countdown = countdown;
    }

    pub closed spec fn dev_value(&self) -> Option<u16> {
        self.dev
    }

    /// Spends one write of the fault budget: returns whether the write may
    /// proceed. The indices themselves are untouched.
    fn consume_write(&mut self) -> (r: bool)
        ensures
            final(self).committed_model() == old(self).committed_model(),
            final(self).pending_model() == old(self).pending_model(),
            final(self).batch_open() == old(self).batch_open(),
            final(self).inv() == old(self).inv(),
            final(self).dev_value() == old(self).dev_value(),
            r == (old(self).faults() != Some(0u64)),
            !r ==> final(self).faults() == old(self).faults(),
            old(self).faults() is None ==> r && final(self).faults() is None,
    {
        match self.fault_countdown {
            Some(n) => {
                if n == 0 {
                    false
                } else {
                    self.fault_countdown = Some(n - 1);
                    true
                }
            },
            None => true,
        }
    }

    /// Switches every index into buffering mode.
    fn begin_all(&mut self)
        requires
            old(self).inv(),
        ensures
            final(self).inv(),
            final(self).batch_open(),
            final(self).committed_model() == old(self).committed_model(),
            final(self).pending_model() == old(self).pending_model(),
            final(self).dev_value() == old(self).dev_value(),
            final(self).faults() == old(self).faults(),
    {
        self.id_map.start_atomic();
        self.reverse_id_map.start_atomic();
        self.constant.start_atomic();
        self.public.start_atomic();
        self.private.start_atomic();
        self.record.start_atomic();
        self.record_tag.start_atomic();
        self.external_record.start_atomic();
        proof {
            assert(self.committed_model() =~= old(self).committed_model());
            assert(self.pending_model() =~= old(self).pending_model());
        }
    }

    /// Discards the staged writes of every index.
    fn abort_all(&mut self)
        requires
            old(self).inv(),
        ensures
            final(self).inv(),
            !final(self).batch_open(),
            final(self).committed_model() == old(self).committed_model(),
            final(self).pending_model() == final(self).committed_model(),
            final(self).dev_value() == old(self).dev_value(),
            final(self).faults() == old(self).faults(),
    {
        self.id_map.abort_atomic();
        self.reverse_id_map.abort_atomic();
        self.constant.abort_atomic();
        self.public.abort_atomic();
        self.private.abort_atomic();
        self.record.abort_atomic();
        self.record_tag.abort_atomic();
        self.external_record.abort_atomic();
        proof {
            assert(self.committed_model() =~= old(self).committed_model());
            assert(self.pending_model() =~= self.committed_model());
        }
    }

    /// Commits the staged writes of every index.
    fn commit_all(&mut self)
        requires
            old(self).inv(),
        ensures
            final(self).inv(),
            !final(self).batch_open(),
            final(self).committed_model() == old(self).pending_model(),
            final(self).pending_model() == final(self).committed_model(),
            final(self).dev_value() == old(self).dev_value(),
            final(self).faults() == old(self).faults(),
    {
        self.id_map.finish_atomic();
        self.reverse_id_map.finish_atomic();
        self.constant.finish_atomic();
        self.public.finish_atomic();
        self.private.finish_atomic();
        self.record.finish_atomic();
        self.record_tag.finish_atomic();
        self.external_record.finish_atomic();
        proof {
            assert(self.committed_model() =~= old(self).pending_model());
            assert(self.pending_model() =~= self.committed_model());
        }
    }

    /// Writes one input under an open batch: its reverse mapping, then its
    /// value into its variant map. Returns false when the write budget runs
    /// out; the batch is then left for the caller to abort.
    fn write_input(&mut self, transition_id: TransitionID, inp: Input) -> (r: bool)
        requires
            old(self).inv(),
            old(self).batch_open(),
        ensures
            final(self).inv(),
            final(self).batch_open(),
            final(self).committed_model() == old(self).committed_model(),
            final(self).dev_value() == old(self).dev_value(),
            r ==> final(self).pending_model() == apply_input(
                old(self).pending_model(),
                transition_id,
                inp,
            ),
            old(self).faults() is None ==> r && final(self).faults() is None,
    {
        if !self.consume_write() {
            return false;
        }
        self.reverse_id_map.insert(inp.id().value, transition_id);
        match inp {
            Input::Constant(id, c) => {
                if !self.consume_write() {
                    return false;
                }
                self.constant.insert(id.value, c);
            },
            Input::Public(id, p) => {
                if !self.consume_write() {
                    return false;
                }
                self.public.insert(id.value, p);
            },
            Input::Private(id, p) => {
                if !self.consume_write() {
                    return false;
                }
                self.private.insert(id.value, p);
            },
            Input::Record(serial_number, tag, origin) => {
                if !self.consume_write() {
                    return false;
                }
                self.record_tag.insert(tag.value, serial_number);
                if !self.consume_write() {
                    return false;
                }
                self.record.insert(serial_number.value, (tag, origin));
            },
            Input::ExternalRecord(id) => {
                if !self.consume_write() {
                    return false;
                }
                self.external_record.insert(id.value, ());
            },
        }
        proof {
            assert(self.pending_model() =~= apply_input(
                old(self).pending_model(),
                transition_id,
                inp,
            ));
            assert(self.committed_model() =~= old(self).committed_model());
        }
        true
    }

    /// Erases one input ID under an open batch: its reverse mapping, the tag
    /// entry when the committed state shows a record under the ID, and its
    /// entry in every variant map. Returns false when the write budget runs
    /// out; the batch is then left for the caller to abort.
    fn erase_id(&mut self, id: Field, src: Ghost<StoreModel>) -> (r: bool)
        requires
            old(self).inv(),
            old(self).batch_open(),
            old(self).committed_model() == src@,
        ensures
            final(self).inv(),
            final(self).batch_open(),
            final(self).committed_model() == old(self).committed_model(),
            final(self).dev_value() == old(self).dev_value(),
            r ==> final(self).pending_model() == remove_id(
                old(self).pending_model(),
                src@,
                id.value,
            ),
            old(self).faults() is None ==> r && final(self).faults() is None,
    {
        if !self.consume_write() {
            return false;
        }
        self.reverse_id_map.remove(id.value);
        let tag_opt: Option<Field> = match self.record.get(id.value) {
            Some(entry) => Some(entry.0),
            None => None,
        };
        match tag_opt {
            Some(tag) => {
                if !self.consume_write() {
                    return false;
                }
                self.record_tag.remove(tag.value);
            },
            None => {},
        }
        if !self.consume_write() {
            return false;
        }
        self.constant.remove(id.value);
        if !self.consume_write() {
            return false;
        }
        self.public.remove(id.value);
        if !self.consume_write() {
            return false;
        }
        self.private.remove(id.value);
        if !self.consume_write() {
            return false;
        }
        self.record.remove(id.value);
        if !self.consume_write() {
            return false;
        }
        self.external_record.remove(id.value);
        proof {
            assert(self.pending_model() =~= remove_id(old(self).pending_model(), src@, id.value));
            assert(self.committed_model() =~= old(self).committed_model());
        }
        true
    }

    /// Returns the ID map.
    pub fn id_map(&self) -> (r: &MemoryMap<Vec<Field>>)
        ensures
            (r.committed().map_values(|v: Vec<Field>| v@)) == self.committed_model().ids,
    {
        &self.id_map
    }

    /// Returns the reverse ID map.
    pub fn reverse_id_map(&self) -> (r: &MemoryMap<TransitionID>)
        ensures
            r.committed() == self.committed_model().reverse,
    {
        &self.reverse_id_map
    }

    /// Returns the constant map.
    pub fn constant_map(&self) -> (r: &MemoryMap<Option<Plaintext>>)
        ensures
            r.committed() == self.committed_model().constant,
    {
        &self.constant
    }

    /// Returns the public map.
    pub fn public_map(&self) -> (r: &MemoryMap<Option<Plaintext>>)
        ensures
            r.committed() == self.committed_model().public,
    {
        &self.public
    }

    /// Returns the private map.
    pub fn private_map(&self) -> (r: &MemoryMap<Option<Ciphertext>>)
        ensures
            r.committed() == self.committed_model().private,
    {
        &self.private
    }

    /// Returns the record map.
    pub fn record_map(&self) -> (r: &MemoryMap<(Field, Origin)>)
        ensures
            r.committed() == self.committed_model().record,
    {
        &self.record
    }

    /// Returns the record tag map.
    pub fn record_tag_map(&self) -> (r: &MemoryMap<Field>)
        ensures
            r.committed() == self.committed_model().record_tag,
    {
        &self.record_tag
    }

    /// Returns the external record map.
    pub fn external_record_map(&self) -> (r: &MemoryMap<()>)
        ensures
            r.committed() == self.committed_model().external,
    {
        &self.external_record
    }

    /// While no batch is open, nothing is staged in any index.
    proof fn lemma_idle_model(&self)
        requires
            self.inv(),
            !self.batch_open(),
        ensures
            self.pending_model() == self.committed_model(),
    {
        self.id_map.lemma_idle_pending();
        self.reverse_id_map.lemma_idle_pending();
        self.constant.lemma_idle_pending();
        self.public.lemma_idle_pending();
        self.private.lemma_idle_pending();
        self.record.lemma_idle_pending();
        self.record_tag.lemma_idle_pending();
        self.external_record.lemma_idle_pending();
        assert(self.pending_model() =~= self.committed_model());
    }
}

/// Turns a list of numeric keys back into field elements.
fn fields_of(keys: Vec<u128>) -> (r: Vec<Field>)
    ensures
        field_values(r@) == keys@,
{
    let n = keys.len();
    let mut out: Vec<Field> = Vec::new();
    let mut i: usize = 0;
    while i < n
        invariant
            n == keys@.len(),
            0 <= i <= n,
            out@.len() == i,
            forall|j: int| 0 <= j < i ==> out@[j].value == keys@[j],
        decreases n - i,
    {
        out.push(Field::new(keys[i]));
        i += 1;
    }
    proof {
        assert(field_values(out@) =~= keys@);
    }
    out
}

/// Collects the values of the entries whose content is retained, skipping
/// pruned ones.
fn present_values<V: Copy>(m: &MemoryMap<Option<V>>) -> (r: Vec<V>)
    requires
        m.wf(),
    ensures
        forall|v: V|
            r@.contains(v) <==> exists|k: u128|
                #[trigger] m.committed().contains_key(k) && m.committed()[k] == Some(v),
{
    let n = m.num_entries();
    let mut out: Vec<V> = Vec::new();
    let mut i: usize = 0;
    while i < n
        invariant
            n == m.entry_seq().len(),
            0 <= i <= n,
            m.wf(),
            forall|v: V|
                out@.contains(v) <==> exists|j: int|
                    0 <= j < i && #[trigger] m.entry_seq()[j].1 == Some(v),
        decreases n - i,
    {
        let ghost prev = out@;
        let entry = m.entry_at(i);
        match entry.1 {
            Some(value) => {
                out.push(value);
                proof {
                    assert forall|v: V| out@.contains(v) implies exists|j: int|
                        0 <= j < i + 1 && #[trigger] m.entry_seq()[j].1 == Some(v) by {
                        let idx = choose|idx: int| 0 <= idx < out@.len() && out@[idx] == v;
                        if idx < prev.len() {
                            assert(prev[idx] == v);
                            assert(prev.contains(v));
                        } else {
                            assert(v == value);
                            assert(m.entry_seq()[i as int].1 == Some(v));
                        }
                    }
                    assert forall|v: V| exists|j: int|
                        0 <= j < i + 1 && #[trigger] m.entry_seq()[j].1 == Some(v) implies out@
                        .contains(v) by {
                        let j = choose|j: int| 0 <= j < i + 1 && m.entry_seq()[j].1 == Some(v);
                        if j < i {
                            assert(prev.contains(v));
                            let idx = choose|idx: int| 0 <= idx < prev.len() && prev[idx] == v;
                            assert(out@[idx] == v);
                        } else {
                            assert(v == value);
                            assert(out@[out@.len() - 1] == v);
                        }
                    }
                }
            },
            None => {
                proof {
                    assert forall|v: V| exists|j: int|
                        0 <= j < i + 1 && #[trigger] m.entry_seq()[j].1 == Some(v) implies out@
                        .contains(v) by {
                        let j = choose|j: int| 0 <= j < i + 1 && m.entry_seq()[j].1 == Some(v);
                        assert(j < i);
                    }
                }
            },
        }
        i += 1;
    }
    proof {
        m.lemma_entries_characterize();
        assert forall|v: V| out@.contains(v) implies exists|k: u128|
            #[trigger] m.committed().contains_key(k) && m.committed()[k] == Some(v) by {
            let j = choose|j: int| 0 <= j < n && m.entry_seq()[j].1 == Some(v);
            let k = m.entry_seq()[j].0;
            assert(m.committed().contains_key(k) && m.committed()[k] == Some(v));
        }
        assert forall|v: V| exists|k: u128|
            #[trigger] m.committed().contains_key(k) && m.committed()[k] == Some(v) implies out@
            .contains(v) by {
            let k = choose|k: u128| m.committed().contains_key(k) && m.committed()[k] == Some(v);
            let j = choose|j: int| 0 <= j < m.entry_seq().len() && m.entry_seq()[j].0 == k;
            assert(m.committed()[m.entry_seq()[j].0] == m.entry_seq()[j].1);
            assert(m.entry_seq()[j].1 == Some(v));
        }
    }
    out
}

/// Collects the origin of every consumed record.
fn record_origins(m: &MemoryMap<(Field, Origin)>) -> (r: Vec<Origin>)
    requires
        m.wf(),
    ensures
        forall|o: Origin|
            r@.contains(o) <==> exists|k: u128|
                #[trigger] m.committed().contains_key(k) && m.committed()[k].1 == o,
{
    let n = m.num_entries();
    let mut out: Vec<Origin> = Vec::new();
    let mut i: usize = 0;
    while i < n
        invariant
            n == m.entry_seq().len(),
            0 <= i <= n,
            m.wf(),
            out@.len() == i,
            forall|j: int| 0 <= j < i ==> out@[j] == m.entry_seq()[j].1.1,
        decreases n - i,
    {
        let entry = m.entry_at(i);
        out.push(entry.1.1);
        i += 1;
    }
    proof {
        m.lemma_entries_characterize();
        assert forall|o: Origin| out@.contains(o) implies exists|k: u128|
            #[trigger] m.committed().contains_key(k) && m.committed()[k].1 == o by {
            let j = choose|j: int| 0 <= j < out@.len() && out@[j] == o;
            let k = m.entry_seq()[j].0;
            assert(m.committed().contains_key(k) && m.committed()[k].1 == o);
        }
        assert forall|o: Origin| exists|k: u128|
            #[trigger] m.committed().contains_key(k) && m.committed()[k].1 == o implies out@
            .contains(o) by {
            let k = choose|k: u128| m.committed().contains_key(k) && m.committed()[k].1 == o;
            let j = choose|j: int| 0 <= j < m.entry_seq().len() && m.entry_seq()[j].0 == k;
            assert(m.committed()[m.entry_seq()[j].0] == m.entry_seq()[j].1);
            assert(out@[j] == o);
        }
    }
    out
}

impl InputStorage for InputMemory {
    closed spec fn committed(&self) -> StoreModel {
        self.committed_model()
    }

    closed spec fn pending(&self) -> StoreModel {
        self.pending_model()
    }

    closed spec fn in_batch(&self) -> bool {
        self.batch_open()
    }

    closed spec fn wf(&self) -> bool {
        self.inv()
    }

    closed spec fn dev_id(&self) -> Option<u16> {
        self.dev_value()
    }

    fn open(dev: Option<u16>) -> (r: Result<Self, StoreError>)
        ensures
            r is Ok,
            (r->Ok_0).faults() is None,
    {
        let s = InputMemory {
            id_map: MemoryMap::new(),
            reverse_id_map: MemoryMap::new(),
            constant: MemoryMap::new(),
            public: MemoryMap::new(),
            private: MemoryMap::new(),
            record: MemoryMap::new(),
            record_tag: MemoryMap::new(),
            external_record: MemoryMap::new(),
            dev,
            fault_countdown: None,
        };
        proof {
            assert(s.committed_model() =~= StoreModel::empty());
            assert(s.pending_model() =~= StoreModel::empty());
        }
        Ok(s)
    }

    fn dev(&self) -> (r: Option<u16>) {
        self.dev
    }

    fn start_atomic(&mut self) {
        self.begin_all();
    }

    fn is_atomic_in_progress(&self) -> (r: bool) {
        self.id_map.is_atomic_in_progress()
    }

    fn abort_atomic(&mut self) {
        self.abort_all();
    }

    fn finish_atomic(&mut self) -> (r: Result<(), StoreError>)
        ensures
            r is Ok,
    {
        self.commit_all();
        Ok(())
    }

    fn insert(&mut self, transition_id: TransitionID, inputs: &Vec<Input>) -> (r: Result<
        (),
        StoreError,
    >)
        ensures
            old(self).faults() is None ==> r is Ok,
    {
        let ghost c0 = self.committed_model();
        let ghost p0 = self.pending_model();
        proof {
            if !self.batch_open() {
                self.lemma_idle_model();
            }
        }
        let mut ids: Vec<Field> = Vec::new();
        let n = inputs.len();
        let mut i: usize = 0;
        while i < n
            invariant
                n == inputs@.len(),
                0 <= i <= n,
                ids@ == input_ids_of(inputs@.take(i as int)),
            decreases n - i,
        {
            let inp = inputs[i];
            ids.push(inp.id());
            proof {
                assert(ids@ =~= input_ids_of(inputs@.take(i as int + 1)));
            }
            i += 1;
        }
        proof {
            assert(inputs@.take(n as int) =~= inputs@);
        }
        let outer = self.id_map.is_atomic_in_progress();
        if !outer {
            self.begin_all();
        }
        if !self.consume_write() {
            self.abort_all();
            return Err(StoreError::Backend);
        }
        let ghost ids_view = ids@;
        self.id_map.insert(transition_id.value, ids);
        let ghost m1 = StoreModel {
            ids: p0.ids.insert(transition_id.value, input_ids_of(inputs@)),
            ..p0
        };
        proof {
            assert(self.pending_model() =~= m1);
            assert(self.committed_model() =~= c0);
        }
        let mut i: usize = 0;
        while i < n
            invariant
                n == inputs@.len(),
                0 <= i <= n,
                self.inv(),
                self.batch_open(),
                self.committed_model() == c0,
                c0 == old(self).committed_model(),
                self.dev_value() == old(self).dev_value(),
                self.pending_model() == apply_inputs_prefix(m1, transition_id, inputs@, i as int),
                old(self).faults() is None ==> self.faults() is None,
            decreases n - i,
        {
            let inp = inputs[i];
            if !self.write_input(transition_id, inp) {
                self.abort_all();
                return Err(StoreError::Backend);
            }
            proof {
                assert(self.pending_model() == apply_inputs_prefix(
                    m1,
                    transition_id,
                    inputs@,
                    i as int + 1,
                ));
            }
            i += 1;
        }
        proof {
            assert(self.pending_model() == spec_insert(p0, transition_id, inputs@));
        }
        if !outer {
            self.commit_all();
        }
        Ok(())
    }

    fn remove(&mut self, transition_id: &TransitionID) -> (r: Result<(), StoreError>)
        ensures
            old(self).faults() is None ==> r is Ok,
    {
        let tidv = transition_id.value;
        let ghost c0 = self.committed_model();
        let ghost p0 = self.pending_model();
        proof {
            if !self.batch_open() {
                self.lemma_idle_model();
            }
        }
        let mut ids: Vec<Field> = Vec::new();
        let found: bool = match self.id_map.get(tidv) {
            Some(v) => {
                let vn = v.len();
                let mut j: usize = 0;
                while j < vn
                    invariant
                        vn == v@.len(),
                        0 <= j <= vn,
                        ids@ == v@.take(j as int),
                    decreases vn - j,
                {
                    ids.push(v[j]);
                    proof {
                        assert(ids@ =~= v@.take(j as int + 1));
                    }
                    j += 1;
                }
                proof {
                    assert(v@.take(vn as int) =~= v@);
                }
                true
            },
            None => false,
        };
        if !found {
            proof {
                assert(!c0.ids.contains_key(tidv));
                assert(spec_remove_using(p0, c0, *transition_id) == p0);
            }
            return Ok(());
        }
        proof {
            assert(c0.ids.contains_key(tidv));
            assert(ids@ == c0.ids[tidv]);
        }
        let outer = self.id_map.is_atomic_in_progress();
        if !outer {
            self.begin_all();
        }
        if !self.consume_write() {
            self.abort_all();
            return Err(StoreError::Backend);
        }
        self.id_map.remove(tidv);
        let ghost m1 = StoreModel { ids: p0.ids.remove(tidv), ..p0 };
        proof {
            assert(self.pending_model() =~= m1);
            assert(self.committed_model() =~= c0);
        }
        let n = ids.len();
        let mut i: usize = 0;
        while i < n
            invariant
                n == ids@.len(),
                0 <= i <= n,
                self.inv(),
                self.batch_open(),
                self.committed_model() == c0,
                c0 == old(self).committed_model(),
                self.dev_value() == old(self).dev_value(),
                self.pending_model() == remove_ids_prefix(m1, c0, ids@, i as int),
                old(self).faults() is None ==> self.faults() is None,
                ids@ == c0.ids[tidv],
                c0.ids.contains_key(tidv),
            decreases n - i,
        {
            let id = ids[i];
            if !self.erase_id(id, Ghost(c0)) {
                self.abort_all();
                return Err(StoreError::Backend);
            }
            proof {
                assert(self.pending_model() == remove_ids_prefix(m1, c0, ids@, i as int + 1));
            }
            i += 1;
        }
        proof {
            assert(self.pending_model() == spec_remove_using(p0, c0, *transition_id));
        }
        if !outer {
            self.commit_all();
        }
        Ok(())
    }

    fn find_transition_id(&self, input_id: &Field) -> (r: Result<
        Option<TransitionID>,
        StoreError,
    >) {
        match self.reverse_id_map.get(input_id.value) {
            Some(t) => Ok(Some(*t)),
            None => Ok(None),
        }
    }

    fn get_ids(&self, transition_id: &TransitionID) -> (r: Result<Vec<Field>, StoreError>) {
        let tidv = transition_id.value;
        let mut out: Vec<Field> = Vec::new();
        match self.id_map.get(tidv) {
            Some(v) => {
                let vn = v.len();
                let mut j: usize = 0;
                while j < vn
                    invariant
                        vn == v@.len(),
                        0 <= j <= vn,
                        out@ == v@.take(j as int),
                    decreases vn - j,
                {
                    out.push(v[j]);
                    proof {
                        assert(out@ =~= v@.take(j as int + 1));
                    }
                    j += 1;
                }
                proof {
                    assert(v@.take(vn as int) =~= v@);
                }
            },
            None => {
                proof {
                    assert(!self.committed_model().ids.contains_key(tidv));
                }
            },
        }
        Ok(out)
    }

    fn get(&self, transition_id: &TransitionID) -> (r: Result<Vec<Input>, StoreError>) {
        let tidv = transition_id.value;
        let ghost m = self.committed_model();
        let idsv: &Vec<Field> = match self.id_map.get(tidv) {
            Some(v) => v,
            None => {
                proof {
                    assert(!m.ids.contains_key(tidv));
                }
                return Ok(Vec::new());
            },
        };
        proof {
            assert(m.ids.contains_key(tidv));
            assert(idsv@ == m.ids[tidv]);
        }
        let n = idsv.len();
        let mut out: Vec<Input> = Vec::new();
        let mut i: usize = 0;
        while i < n
            invariant
                n == idsv@.len(),
                0 <= i <= n,
                self.inv(),
                m == self.committed_model(),
                tidv == transition_id.value,
                m.ids.contains_key(tidv),
                idsv@ == m.ids[tidv],
                forall|j: int| 0 <= j < i ==> resolves(m, idsv@[j].value),
                out@ == lookup_inputs(m, idsv@.take(i as int)),
            decreases n - i,
        {
            let id = idsv[i];
            let idv = id.value;
            let c = self.constant.get(idv);
            let p = self.public.get(idv);
            let pr = self.private.get(idv);
            let rec = self.record.get(idv);
            let ext = self.external_record.get(idv);
            let n_hits = (if c.is_some() {
                1u8
            } else {
                0u8
            }) + (if p.is_some() {
                1u8
            } else {
                0u8
            }) + (if pr.is_some() {
                1u8
            } else {
                0u8
            }) + (if rec.is_some() {
                1u8
            } else {
                0u8
            }) + (if ext.is_some() {
                1u8
            } else {
                0u8
            });
            proof {
                assert(n_hits as int == variant_hits(m, idv));
            }
            if n_hits == 0 {
                proof {
                    lemma_first_unresolved_at(m, idsv@, i as int);
                }
                return Err(StoreError::MissingInput(id, *transition_id));
            }
            if n_hits > 1 {
                proof {
                    lemma_first_unresolved_at(m, idsv@, i as int);
                }
                return Err(StoreError::AmbiguousInput(id, *transition_id));
            }
            let input = match c {
                Some(cv) => Input::Constant(Field::new(idv), *cv),
                None => match p {
                    Some(pv) => Input::Public(Field::new(idv), *pv),
                    None => match pr {
                        Some(prv) => Input::Private(Field::new(idv), *prv),
                        None => match rec {
                            Some(rv) => Input::Record(Field::new(idv), rv.0, rv.1),
                            None => Input::ExternalRecord(Field::new(idv)),
                        },
                    },
                },
            };
            proof {
                assert(resolves(m, idv));
                assert(input == lookup_input(m, idv));
                assert(out@.push(input) =~= lookup_inputs(m, idsv@.take(i as int + 1)));
            }
            out.push(input);
            i += 1;
        }
        proof {
            assert(idsv@.take(n as int) =~= idsv@);
            assert(all_resolve(m, idsv@));
        }
        Ok(out)
    }

    fn contains_input_id(&self, input_id: &Field) -> (r: Result<bool, StoreError>) {
        Ok(self.reverse_id_map.contains_key(input_id.value))
    }

    fn contains_serial_number(&self, serial_number: &Field) -> (r: Result<bool, StoreError>) {
        Ok(self.record.contains_key(serial_number.value))
    }

    fn contains_tag(&self, tag: &Field) -> (r: Result<bool, StoreError>) {
        Ok(self.record_tag.contains_key(tag.value))
    }

    fn input_ids(&self) -> (r: Vec<Field>) {
        fields_of(self.reverse_id_map.key_vec())
    }

    fn constant_input_ids(&self) -> (r: Vec<Field>) {
        fields_of(self.constant.key_vec())
    }

    fn public_input_ids(&self) -> (r: Vec<Field>) {
        fields_of(self.public.key_vec())
    }

    fn private_input_ids(&self) -> (r: Vec<Field>) {
        fields_of(self.private.key_vec())
    }

    fn serial_numbers(&self) -> (r: Vec<Field>) {
        fields_of(self.record.key_vec())
    }

    fn external_input_ids(&self) -> (r: Vec<Field>) {
        fields_of(self.external_record.key_vec())
    }

    fn tags(&self) -> (r: Vec<Field>) {
        fields_of(self.record_tag.key_vec())
    }

    fn constant_inputs(&self) -> (r: Vec<Plaintext>) {
        present_values(&self.constant)
    }

    fn public_inputs(&self) -> (r: Vec<Plaintext>) {
        present_values(&self.public)
    }

    fn private_inputs(&self) -> (r: Vec<Ciphertext>) {
        present_values(&self.private)
    }

    fn origins(&self) -> (r: Vec<Origin>) {
        let r = record_origins(&self.record);
        proof {
            assert(self.committed_model().record == self.record.committed());
            assert forall|o: Origin| r@.contains(o) implies exists|k: u128|
                #[trigger] self.committed().record.contains_key(k) && self.committed().record[k].1
                    == o by {
                let k = choose|k: u128|
                    #[trigger] self.record.committed().contains_key(k)
                        && self.record.committed()[k].1 == o;
                assert(self.committed().record.contains_key(k) && self.committed().record[k].1
                    == o);
            }
            assert forall|o: Origin| exists|k: u128|
                #[trigger] self.committed_model().record.contains_key(k) && self.committed_model()
                .record[k].1 == o implies r@.contains(o) by {
                let k = choose|k: u128|
                    #[trigger] self.committed_model().record.contains_key(k)
                        && self.committed_model().record[k].1 == o;
                assert(self.record.committed().contains_key(k) && self.record.committed()[k].1
                    == o);
            }
        }
        r
    }
}

} // verus!
