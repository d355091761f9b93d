//! A string value in its field-element encoding, with equality decided the
//! way the indices compare identifiers: by length, then field by field.

use vstd::prelude::*;

verus! {

/// A string packed into field elements. Two strings are equal exactly when
/// their field encodings are equal, so equality is decided over the fields
/// without decoding the text.
#[derive(Clone, PartialEq, Eq, Hash, Debug)]
pub struct StringType {
    fields: Vec<u128>,
}

impl View for StringType {
    type V = Seq<u128>;

    closed spec fn view(&self) -> Seq<u128> {
        self.fields@
    }
}

impl StringType {
    pub fn new(fields: Vec<u128>) -> (r: StringType)
        ensures
            r@ == fields@,
    {
        StringType { fields }
    }

    /// Returns the field elements of the encoding, in order.
    pub fn to_fields(&self) -> (r: &Vec<u128>)
        ensures
            r@ == self@,
    {
        &self.fields
    }

    /// Returns `true` if `self` and `other` are equal: same length and the
    /// same field contents.
    pub fn is_equal(&self, other: &Self) -> (r: bool)
        ensures
            r == (self@ == other@),
    {
        let n = self.fields.len();
        if n != other.fields.len() {
            return false;
        }
        let mut acc = true;
        let mut i: usize = 0;
        while i < n
            invariant
                n == self@.len(),
                n == other@.len(),
                0 <= i <= n,
                acc == (forall|j: int| 0 <= j < i ==> self@[j] == other@[j]),
            decreases n - i,
        {
            acc = acc && self.fields[i] == other.fields[i];
            i += 1;
        }
        proof {
            if acc {
                assert(self@ =~= other@);
            }
        }
        acc
    }

    /// Returns `true` if `self` and `other` are *not* equal.
    pub fn is_not_equal(&self, other: &Self) -> (r: bool)
        ensures
            r == (self@ != other@),
    {
        let n = self.fields.len();
        if n != other.fields.len() {
            proof {
                assert(self@.len() != other@.len());
            }
            return true;
        }
        let mut acc = false;
        let mut i: usize = 0;
        while i < n
            invariant
                n == self@.len(),
                n == other@.len(),
                0 <= i <= n,
                acc == !(forall|j: int| 0 <= j < i ==> self@[j] == other@[j]),
            decreases n - i,
        {
            acc = acc || self.fields[i] != other.fields[i];
            i += 1;
        }
        proof {
            if !acc {
                assert(self@ =~= other@);
            }
        }
        acc
    }
}

} // verus!
