//! Tests of the transition input store: insertion, reconstruction, removal,
//! reverse lookup, the atomic batch protocol, and failure atomicity.

use input_store::storage::{InputMemory, InputStorage, StoreError};
use input_store::store::InputStore;
use input_store::types::{Ciphertext, Field, Input, Origin, Plaintext, TransitionID};

/// One sample per input variant, each under its own transition ID.
fn sample_inputs() -> Vec<(TransitionID, Input)> {
    vec![
        (
            TransitionID::new(101),
            Input::Constant(Field::new(1), Some(Plaintext::new(11))),
        ),
        (
            TransitionID::new(102),
            Input::Public(Field::new(2), Some(Plaintext::new(22))),
        ),
        (
            TransitionID::new(103),
            Input::Private(Field::new(3), Some(Ciphertext::new(33))),
        ),
        (
            TransitionID::new(104),
            Input::Record(Field::new(4), Field::new(44), Origin::Commitment(Field::new(444))),
        ),
        (
            TransitionID::new(105),
            Input::Record(Field::new(5), Field::new(55), Origin::StateRoot(Field::new(555))),
        ),
        (TransitionID::new(106), Input::ExternalRecord(Field::new(6))),
        (TransitionID::new(107), Input::Constant(Field::new(7), None)),
        (TransitionID::new(108), Input::Public(Field::new(8), None)),
        (TransitionID::new(109), Input::Private(Field::new(9), None)),
    ]
}

#[test]
fn test_insert_get_remove() {
    for (transition_id, input) in sample_inputs() {
        // Initialize a new input store.
        let mut input_store = InputMemory::open(None).unwrap();

        // Ensure the transition input does not exist.
        let candidate = input_store.get(&transition_id).unwrap();
        assert!(candidate.is_empty());

        // Insert the transition input.
        input_store.insert(transition_id, &vec![input.clone()]).unwrap();

        // Retrieve the transition input.
        let candidate = input_store.get(&transition_id).unwrap();
        assert_eq!(vec![input.clone()], candidate);

        // Remove the transition input.
        input_store.remove(&transition_id).unwrap();

        // Retrieve the transition input.
        let candidate = input_store.get(&transition_id).unwrap();
        assert!(candidate.is_empty());
    }
}

#[test]
fn test_find_transition_id() {
    for (transition_id, input) in sample_inputs() {
        // Initialize a new input store.
        let mut input_store = InputMemory::open(None).unwrap();

        // Ensure the transition input does not exist.
        let candidate = input_store.get(&transition_id).unwrap();
        assert!(candidate.is_empty());

        // Ensure the transition ID is not found.
        let candidate = input_store.find_transition_id(&input.id()).unwrap();
        assert!(candidate.is_none());

        // Insert the transition input.
        input_store.insert(transition_id, &vec![input.clone()]).unwrap();

        // Find the transition ID.
        let candidate = input_store.find_transition_id(&input.id()).unwrap();
        assert_eq!(Some(transition_id), candidate);

        // Remove the transition input.
        input_store.remove(&transition_id).unwrap();

        // Ensure the transition ID is not found.
        let candidate = input_store.find_transition_id(&input.id()).unwrap();
        assert!(candidate.is_none());
    }
}

#[test]
fn test_concrete_scenario() {
    let mut store = InputStore::<InputMemory>::open(None).unwrap();
    let t1 = TransitionID::new(0x71);
    let origin = Origin::Commitment(Field::new(0x0D));
    let inputs = vec![
        Input::Constant(Field::new(0xAA), Some(Plaintext::new(0x616D74))),
        Input::Record(Field::new(0xBB), Field::new(0xCC), origin),
    ];
    store.insert(t1, &inputs).unwrap();

    let ids = store.get_input_ids(&t1).unwrap();
    assert_eq!(ids, vec![Field::new(0xAA), Field::new(0xBB)]);
    assert!(store.contains_tag(&Field::new(0xCC)).unwrap());
    assert_eq!(store.find_transition_id(&Field::new(0xAA)).unwrap(), Some(t1));
    assert_eq!(store.get_inputs(&t1).unwrap(), inputs);
    assert!(store.contains_serial_number(&Field::new(0xBB)).unwrap());
    assert_eq!(store.origins(), vec![origin]);

    store.remove(&t1).unwrap();
    assert!(!store.contains_tag(&Field::new(0xCC)).unwrap());
    assert!(store.get_input_ids(&t1).unwrap().is_empty());
}

#[test]
fn test_remove_never_inserted_is_noop() {
    let mut store = InputStore::<InputMemory>::open(None).unwrap();
    let t1 = TransitionID::new(1);
    let inputs = vec![Input::Constant(Field::new(10), None)];
    store.insert(t1, &inputs).unwrap();

    // Removing a transition that was never inserted succeeds and changes
    // nothing.
    let unknown = TransitionID::new(2);
    store.remove(&unknown).unwrap();
    assert_eq!(store.get_inputs(&t1).unwrap(), inputs);
    assert_eq!(store.find_transition_id(&Field::new(10)).unwrap(), Some(t1));
    assert_eq!(store.input_ids(), vec![Field::new(10)]);
}

#[test]
fn test_tombstone() {
    let mut store = InputStore::<InputMemory>::open(None).unwrap();
    let t1 = TransitionID::new(9);
    let inputs = vec![
        Input::Public(Field::new(21), Some(Plaintext::new(1))),
        Input::Record(Field::new(22), Field::new(23), Origin::StateRoot(Field::new(24))),
        Input::ExternalRecord(Field::new(25)),
    ];
    store.insert(t1, &inputs).unwrap();
    store.remove(&t1).unwrap();

    assert!(store.get_inputs(&t1).unwrap().is_empty());
    assert!(store.get_input_ids(&t1).unwrap().is_empty());
    for id in [21u128, 22, 25] {
        assert_eq!(store.find_transition_id(&Field::new(id)).unwrap(), None);
        assert!(!store.contains_input_id(&Field::new(id)).unwrap());
    }
    assert!(!store.contains_tag(&Field::new(23)).unwrap());
    assert!(!store.contains_serial_number(&Field::new(22)).unwrap());
    assert!(store.input_ids().is_empty());
    assert!(store.public_input_ids().is_empty());
    assert!(store.serial_numbers().is_empty());
    assert!(store.external_input_ids().is_empty());
    assert!(store.tags().is_empty());
    assert!(store.origins().is_empty());
}

#[test]
fn test_reverse_consistency() {
    let mut store = InputStore::<InputMemory>::open(None).unwrap();
    let t1 = TransitionID::new(77);
    let inputs = vec![
        Input::Constant(Field::new(31), None),
        Input::Private(Field::new(32), Some(Ciphertext::new(5))),
        Input::Record(Field::new(33), Field::new(34), Origin::Commitment(Field::new(35))),
    ];
    store.insert(t1, &inputs).unwrap();
    for input in &inputs {
        assert_eq!(store.find_transition_id(&input.id()).unwrap(), Some(t1));
        assert!(store.contains_input_id(&input.id()).unwrap());
    }
}

#[test]
fn test_exclusive_membership() {
    let mut store = InputStore::<InputMemory>::open(None).unwrap();
    let t1 = TransitionID::new(88);
    let inputs = vec![
        Input::Constant(Field::new(41), Some(Plaintext::new(1))),
        Input::Public(Field::new(42), Some(Plaintext::new(2))),
        Input::Private(Field::new(43), Some(Ciphertext::new(3))),
        Input::Record(Field::new(44), Field::new(45), Origin::Commitment(Field::new(46))),
        Input::ExternalRecord(Field::new(47)),
    ];
    store.insert(t1, &inputs).unwrap();

    for input in &inputs {
        let id = input.id();
        let membership = [
            store.constant_input_ids().contains(&id),
            store.public_input_ids().contains(&id),
            store.private_input_ids().contains(&id),
            store.serial_numbers().contains(&id),
            store.external_input_ids().contains(&id),
        ];
        let count = membership.iter().filter(|present| **present).count();
        assert_eq!(count, 1, "input {:?} is in {} variant maps", input, count);
    }
}

#[test]
fn test_all_or_nothing_under_induced_failure() {
    let mut backend = InputMemory::open(None).unwrap();
    let t0 = TransitionID::new(50);
    let existing = vec![Input::Constant(Field::new(60), Some(Plaintext::new(6)))];
    backend.insert(t0, &existing).unwrap();

    // Arm the fault injector so that the write of the 4th of 5 inputs fails
    // partway through the insert.
    backend.set_write_fault(Some(7));
    let t1 = TransitionID::new(51);
    let inputs = vec![
        Input::Constant(Field::new(61), Some(Plaintext::new(1))),
        Input::Public(Field::new(62), Some(Plaintext::new(2))),
        Input::Private(Field::new(63), Some(Ciphertext::new(3))),
        Input::Record(Field::new(64), Field::new(65), Origin::Commitment(Field::new(66))),
        Input::ExternalRecord(Field::new(67)),
    ];
    let result = backend.insert(t1, &inputs);
    assert_eq!(result, Err(StoreError::Backend));

    // Post-state must equal pre-state across all eight indices: no partial
    // leakage from the failed insert.
    backend.set_write_fault(None);
    assert!(backend.get(&t1).unwrap().is_empty());
    assert!(backend.get_ids(&t1).unwrap().is_empty());
    for id in [61u128, 62, 63, 64, 67] {
        assert_eq!(backend.find_transition_id(&Field::new(id)).unwrap(), None);
    }
    assert!(!backend.contains_serial_number(&Field::new(64)).unwrap());
    assert!(!backend.contains_tag(&Field::new(65)).unwrap());
    assert_eq!(backend.input_ids(), vec![Field::new(60)]);
    assert_eq!(backend.constant_input_ids(), vec![Field::new(60)]);
    assert!(backend.public_input_ids().is_empty());
    assert!(backend.private_input_ids().is_empty());
    assert!(backend.external_input_ids().is_empty());
    assert_eq!(backend.get(&t0).unwrap(), existing);
}

#[test]
fn test_atomic_batch_commit_and_abort() {
    let mut store = InputStore::<InputMemory>::open(None).unwrap();
    let t1 = TransitionID::new(70);
    let inputs = vec![Input::Public(Field::new(71), Some(Plaintext::new(7)))];

    // Writes staged inside a caller batch are invisible until the batch is
    // finished.
    assert!(!store.is_atomic_in_progress());
    store.start_atomic();
    assert!(store.is_atomic_in_progress());
    store.insert(t1, &inputs).unwrap();
    assert!(store.get_inputs(&t1).unwrap().is_empty());
    store.finish_atomic().unwrap();
    assert!(!store.is_atomic_in_progress());
    assert_eq!(store.get_inputs(&t1).unwrap(), inputs);

    // An aborted batch leaves no trace.
    let t2 = TransitionID::new(72);
    store.start_atomic();
    store.insert(t2, &vec![Input::ExternalRecord(Field::new(73))]).unwrap();
    store.abort_atomic();
    assert!(store.get_inputs(&t2).unwrap().is_empty());
    assert_eq!(store.find_transition_id(&Field::new(73)).unwrap(), None);
    assert_eq!(store.get_inputs(&t1).unwrap(), inputs);
}

#[test]
fn test_pruned_values_are_skipped() {
    let mut store = InputStore::<InputMemory>::open(None).unwrap();
    store
        .insert(
            TransitionID::new(80),
            &vec![
                Input::Constant(Field::new(81), Some(Plaintext::new(810))),
                Input::Constant(Field::new(82), None),
                Input::Public(Field::new(83), None),
                Input::Private(Field::new(84), None),
            ],
        )
        .unwrap();

    // Pruned (None) contents are skipped, while their identifiers remain
    // indexed.
    assert_eq!(store.constant_inputs(), vec![Plaintext::new(810)]);
    assert!(store.public_inputs().is_empty());
    assert!(store.private_inputs().is_empty());
    assert_eq!(store.constant_input_ids().len(), 2);
    assert_eq!(store.public_input_ids(), vec![Field::new(83)]);
    assert_eq!(store.private_input_ids(), vec![Field::new(84)]);
}

#[test]
fn test_get_reports_ambiguous_input() {
    let mut store = InputStore::<InputMemory>::open(None).unwrap();
    let t1 = TransitionID::new(90);
    let t2 = TransitionID::new(91);
    let shared = Field::new(92);
    store.insert(t1, &vec![Input::Constant(shared, None)]).unwrap();
    // A second insert routing the same identifier into another variant map
    // corrupts the exclusive-membership invariant; `get` must report it.
    store.insert(t2, &vec![Input::Public(shared, None)]).unwrap();
    assert_eq!(
        store.get_inputs(&t1),
        Err(StoreError::AmbiguousInput(shared, t1))
    );
}

#[test]
fn test_get_reports_missing_input() {
    let mut store = InputStore::<InputMemory>::open(None).unwrap();
    let t1 = TransitionID::new(95);
    let t2 = TransitionID::new(96);
    let shared = Field::new(97);
    store.insert(t1, &vec![Input::Constant(shared, None)]).unwrap();
    store.insert(t2, &vec![Input::Constant(shared, None)]).unwrap();
    // Removing the second transition erases the shared identifier from the
    // variant maps while the first transition still lists it.
    store.remove(&t2).unwrap();
    assert_eq!(
        store.get_inputs(&t1),
        Err(StoreError::MissingInput(shared, t1))
    );
}

#[test]
fn test_store_from_and_dev() {
    let backend = InputMemory::open(Some(3)).unwrap();
    let store = InputStore::from(backend);
    assert_eq!(store.dev(), Some(3));

    let store2 = InputStore::<InputMemory>::open(None).unwrap();
    assert_eq!(store2.dev(), None);
    let cloned = store2.clone();
    assert!(cloned.input_ids().is_empty());
}
