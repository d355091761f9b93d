//! The data carried by the transition input indices: fixed-width identifiers,
//! opaque payloads, and the tagged union of input variants.

use vstd::prelude::*;

verus! {

/// A fixed-width field element, opaque to this layer. Input identifiers,
/// serial numbers, and tags are all field elements produced by an external
/// cryptographic layer; the store only compares and indexes them.
#[derive(Clone, Copy, PartialEq, Eq, Structural, Hash, Debug)]
pub struct Field {
    pub value: u128,
}

impl Field {
    pub fn new(value: u128) -> (r: Field)
        ensures
            r.value == value,
    {
        Field { value }
    }
}

/// The fixed-width identifier of one state transition.
#[derive(Clone, Copy, PartialEq, Eq, Structural, Hash, Debug)]
pub struct TransitionID {
    pub value: u128,
}

impl TransitionID {
    pub fn new(value: u128) -> (r: TransitionID)
        ensures
            r.value == value,
    {
        TransitionID { value }
    }
}

/// An opaque plaintext payload. `None` in an index entry means the content
/// was pruned: the identifier is retained while the content is discarded.
#[derive(Clone, Copy, PartialEq, Eq, Structural, Hash, Debug)]
pub struct Plaintext {
    pub data: u128,
}

impl Plaintext {
    pub fn new(data: u128) -> (r: Plaintext)
        ensures
            r.data == data,
    {
        Plaintext { data }
    }
}

/// An opaque ciphertext payload, prunable like a plaintext.
#[derive(Clone, Copy, PartialEq, Eq, Structural, Hash, Debug)]
pub struct Ciphertext {
    pub data: u128,
}

impl Ciphertext {
    pub fn new(data: u128) -> (r: Ciphertext)
        ensures
            r.data == data,
    {
        Ciphertext { data }
    }
}

/// Where a consumed record came from: a commitment or a state root, opaque to
/// this layer.
#[derive(Clone, Copy, PartialEq, Eq, Structural, Hash, Debug)]
pub enum Origin {
    Commitment(Field),
    StateRoot(Field),
}

/// A transition input: the tagged union routed into the five per-variant
/// indices.
///
/// For a `Record` input the fields are the serial number, the tag (a blinded
/// one-to-one alias of the serial number), and the origin of the consumed
/// record. The serial number doubles as the record input's identifier.
#[derive(Clone, Copy, PartialEq, Eq, Hash, Debug)]
pub enum Input {
    Constant(Field, Option<Plaintext>),
    Public(Field, Option<Plaintext>),
    Private(Field, Option<Ciphertext>),
    Record(Field, Field, Origin),
    ExternalRecord(Field),
}

impl Input {
    /// The identifier under which this input is indexed: the input ID for
    /// constant, public, private, and external record inputs, and the serial
    /// number for record inputs.
    pub open spec fn spec_id(self) -> Field {
        match self {
            Input::Constant(id, _) => id,
            Input::Public(id, _) => id,
            Input::Private(id, _) => id,
            Input::Record(serial_number, _, _) => serial_number,
            Input::ExternalRecord(id) => id,
        }
    }

    /// Returns the identifier under which this input is indexed.
    pub fn id(&self) -> (r: Field)
        ensures
            r == self.spec_id(),
    {
        match self {
            Input::Constant(id, _) => *id,
            Input::Public(id, _) => *id,
            Input::Private(id, _) => *id,
            Input::Record(serial_number, _, _) => *serial_number,
            Input::ExternalRecord(id) => *id,
        }
    }
}

} // verus!
