//! The scalar field element of this library, recoverable from its bit
//! representation.
//!
//! A scalar is a residue modulo a fixed 61-bit prime. Decoding from bits
//! mirrors the layout rules of the identifiers' native encoding: excess
//! high bits beyond the scalar size must be zero, and a bit pattern at full
//! size must stay below the modulus.

use vstd::prelude::*;

verus! {

/// The scalar field modulus: the prime 2^61 - 1.
pub const SCALAR_MODULUS: u64 = 0x1fffffffffffffff;

/// The size of a scalar in bits.
pub const SCALAR_SIZE_IN_BITS: usize = 61;

/// The size of the data region of a scalar in bits: one less than the full
/// size, so that every data-sized pattern is below the modulus.
pub const SCALAR_SIZE_IN_DATA_BITS: usize = 60;

/// Two to the given power.
pub open spec fn pow2_of(n: nat) -> nat
    decreases n,
{
    if n == 0 {
        1
    } else {
        2 * pow2_of((n - 1) as nat)
    }
}

/// The value of a little-endian bit string.
pub open spec fn le_bits_value(bits: Seq<bool>) -> nat
    decreases bits.len(),
{
    if bits.len() == 0 {
        0
    } else {
        (if bits[0] {
            1nat
        } else {
            0nat
        }) + 2 * le_bits_value(bits.drop_first())
    }
}

/// A bit string's value is below two to its length.
pub proof fn lemma_le_bits_bound(bits: Seq<bool>)
    ensures
        le_bits_value(bits) < pow2_of(bits.len()),
    decreases bits.len(),
{
    if bits.len() > 0 {
        lemma_le_bits_bound(bits.drop_first());
    }
}

/// Appending a bit adds its positional value.
pub proof fn lemma_le_bits_push(bits: Seq<bool>, b: bool)
    ensures
        le_bits_value(bits.push(b)) == le_bits_value(bits) + (if b {
            pow2_of(bits.len())
        } else {
            0nat
        }),
    decreases bits.len(),
{
    let t = bits.push(b);
    assert(t.len() == bits.len() + 1);
    assert(le_bits_value(t) == (if t[0] {
        1nat
    } else {
        0nat
    }) + 2 * le_bits_value(t.drop_first()));
    if bits.len() == 0 {
        assert(t[0] == b);
        assert(t.drop_first() =~= Seq::<bool>::empty());
        assert(le_bits_value(t.drop_first()) == 0);
        assert(pow2_of(bits.len()) == 1);
    } else {
        lemma_le_bits_push(bits.drop_first(), b);
        assert(t[0] == bits[0]);
        assert(t.drop_first() =~= bits.drop_first().push(b));
        assert(pow2_of(bits.len()) == 2 * pow2_of(bits.drop_first().len()));
    }
}

/// A zero tail beyond a prefix adds nothing to the value.
pub proof fn lemma_le_bits_zero_tail(bits: Seq<bool>, n: int)
    requires
        0 <= n <= bits.len(),
        forall|i: int| n <= i < bits.len() ==> !bits[i],
    ensures
        le_bits_value(bits) == le_bits_value(bits.take(n)),
    decreases bits.len(),
{
    if n == 0 {
        lemma_le_bits_all_zero(bits);
        assert(bits.take(0) =~= Seq::<bool>::empty());
    } else {
        assert(bits.len() > 0);
        lemma_le_bits_zero_tail(bits.drop_first(), n - 1);
        assert(bits.take(n).drop_first() =~= bits.drop_first().take(n - 1));
        assert(bits.take(n)[0] == bits[0]);
    }
}

proof fn lemma_le_bits_all_zero(bits: Seq<bool>)
    requires
        forall|i: int| 0 <= i < bits.len() ==> !bits[i],
    ensures
        le_bits_value(bits) == 0,
    decreases bits.len(),
{
    if bits.len() > 0 {
        lemma_le_bits_all_zero(bits.drop_first());
    }
}

/// The concrete powers of two at the scalar sizes.
proof fn lemma_scalar_pow2()
    ensures
        pow2_of(SCALAR_SIZE_IN_DATA_BITS as nat) == 0x1000000000000000,
        pow2_of(SCALAR_SIZE_IN_BITS as nat) == 0x2000000000000000,
{
    reveal_with_fuel(pow2_of, 62);
}

/// Why decoding a list of bits fails.
#[derive(Clone, Copy, PartialEq, Eq, Debug)]
pub enum ScalarError {
    /// Bits beyond the scalar size were set.
    ExcessBits,
    /// The bit pattern is greater than or equal to the modulus.
    ScalarTooLarge,
}

/// A scalar field element: a residue below [`SCALAR_MODULUS`].
#[derive(Clone, Copy, PartialEq, Eq, Structural, Hash, Debug)]
pub struct Scalar {
    pub value: u64,
}

impl Scalar {
    /// Whether the inner value is a reduced residue.
    pub open spec fn wf(&self) -> bool {
        self.value < SCALAR_MODULUS
    }

    pub fn new(value: u64) -> (r: Scalar)
        requires
            value < SCALAR_MODULUS,
        ensures
            r.value == value,
            r.wf(),
    {
        Scalar { value }
    }

    /// Initializes a new scalar from a list of little-endian bits.
    ///
    /// If the list is longer than the scalar size, the excess bits must all
    /// be zero; if it is longer than the data size, the value must be below
    /// the modulus; a shorter list is treated as padded with zeros.
    pub fn from_bits_le(bits_le: &Vec<bool>) -> (r: Result<Scalar, ScalarError>)
        ensures
            ({
                let bits = bits_le@;
                let excess_zero = forall|i: int|
                    SCALAR_SIZE_IN_BITS <= i < bits.len() ==> !bits[i];
                &&& (r == Result::<Scalar, ScalarError>::Err(ScalarError::ExcessBits)
                    <==> !excess_zero)
                &&& (r == Result::<Scalar, ScalarError>::Err(ScalarError::ScalarTooLarge)
                    <==> excess_zero && bits.len() > SCALAR_SIZE_IN_DATA_BITS && le_bits_value(
                    bits,
                ) >= SCALAR_MODULUS)
                &&& (r is Ok ==> excess_zero && (r->Ok_0).value == le_bits_value(bits)
                    && (r->Ok_0).wf())
                &&& (excess_zero && le_bits_value(bits) < SCALAR_MODULUS ==> r is Ok)
            }),
    {
        proof {
            lemma_scalar_pow2();
        }
        let num_bits = bits_le.len();
        // Ensure the excess bits beyond the scalar size are all zero.
        if num_bits > SCALAR_SIZE_IN_BITS {
            let mut should_be_zero = false;
            let mut i: usize = SCALAR_SIZE_IN_BITS;
            while i < num_bits
                invariant
                    num_bits == bits_le@.len(),
                    SCALAR_SIZE_IN_BITS <= i <= num_bits,
                    should_be_zero == !(forall|j: int|
                        SCALAR_SIZE_IN_BITS <= j < i ==> !bits_le@[j]),
                decreases num_bits - i,
            {
                should_be_zero = should_be_zero || bits_le[i];
                i += 1;
            }
            if should_be_zero {
                return Err(ScalarError::ExcessBits);
            }
        }
        // Recover the value of the bits up to the scalar size.
        let m = if num_bits < SCALAR_SIZE_IN_BITS {
            num_bits
        } else {
            SCALAR_SIZE_IN_BITS
        };
        let ghost t = bits_le@.take(m as int);
        let mut value: u64 = 0;
        let mut j: usize = m;
        while j > 0
            invariant
                m <= bits_le@.len(),
                m <= SCALAR_SIZE_IN_BITS,
                t == bits_le@.take(m as int),
                0 <= j <= m,
                value == le_bits_value(t.skip(j as int)),
                pow2_of(SCALAR_SIZE_IN_BITS as nat) == 0x2000000000000000,
            decreases j,
        {
            j -= 1;
            let b = bits_le[j];
            proof {
                assert(t.skip(j as int).drop_first() =~= t.skip(j as int + 1));
                assert(t.skip(j as int)[0] == t[j as int]);
                assert(t[j as int] == bits_le@[j as int]);
                lemma_le_bits_bound(t.skip(j as int));
                lemma_pow2_le(t.skip(j as int).len() as nat, SCALAR_SIZE_IN_BITS as nat);
            }
            value = 2 * value + (if b {
                1
            } else {
                0
            });
        }
        proof {
            assert(t.skip(0) =~= t);
            lemma_le_bits_zero_tail(bits_le@, m as int);
            assert(value == le_bits_value(bits_le@));
            if (m as int) <= SCALAR_SIZE_IN_DATA_BITS {
                lemma_le_bits_bound(t);
                lemma_pow2_le(t.len() as nat, SCALAR_SIZE_IN_DATA_BITS as nat);
            }
        }
        // At full size, the value must be below the modulus.
        if num_bits > SCALAR_SIZE_IN_DATA_BITS {
            if value >= SCALAR_MODULUS {
                return Err(ScalarError::ScalarTooLarge);
            }
        }
        Ok(Scalar { value })
    }

    /// Initializes a new scalar from a list of big-endian bits.
    pub fn from_bits_be(bits_be: &Vec<bool>) -> (r: Result<Scalar, ScalarError>)
        ensures
            ({
                let bits = bits_be@.reverse();
                let excess_zero = forall|i: int|
                    SCALAR_SIZE_IN_BITS <= i < bits.len() ==> !bits[i];
                &&& (r == Result::<Scalar, ScalarError>::Err(ScalarError::ExcessBits)
                    <==> !excess_zero)
                &&& (r == Result::<Scalar, ScalarError>::Err(ScalarError::ScalarTooLarge)
                    <==> excess_zero && bits.len() > SCALAR_SIZE_IN_DATA_BITS && le_bits_value(
                    bits,
                ) >= SCALAR_MODULUS)
                &&& (r is Ok ==> excess_zero && (r->Ok_0).value == le_bits_value(bits)
                    && (r->Ok_0).wf())
                &&& (excess_zero && le_bits_value(bits) < SCALAR_MODULUS ==> r is Ok)
            }),
    {
        let n = bits_be.len();
        let mut bits_le: Vec<bool> = Vec::new();
        let mut i: usize = 0;
        while i < n
            invariant
                n == bits_be@.len(),
                0 <= i <= n,
                bits_le@.len() == i,
                forall|j: int| 0 <= j < i ==> bits_le@[j] == bits_be@[n - 1 - j],
            decreases n - i,
        {
            bits_le.push(bits_be[n - 1 - i]);
            i += 1;
        }
        proof {
            assert(bits_le@ =~= bits_be@.reverse());
        }
        Scalar::from_bits_le(&bits_le)
    }

    /// Returns the scalar as a list of little-endian bits, at the scalar
    /// size.
    pub fn to_bits_le(&self) -> (r: Vec<bool>)
        requires
            self.wf(),
        ensures
            r@.len() == SCALAR_SIZE_IN_BITS,
            le_bits_value(r@) == self.value,
    {
        proof {
            lemma_scalar_pow2();
        }
        let mut bits: Vec<bool> = Vec::new();
        let mut cur: u64 = self.value;
        proof {
            assert(le_bits_value(bits@) == 0);
            assert(pow2_of(0) == 1);
        }
        let mut i: usize = 0;
        while i < SCALAR_SIZE_IN_BITS
            invariant
                0 <= i <= SCALAR_SIZE_IN_BITS,
                bits@.len() == i,
                self.value == le_bits_value(bits@) + cur * pow2_of(i as nat),
                self.value < SCALAR_MODULUS,
                pow2_of(SCALAR_SIZE_IN_BITS as nat) == 0x2000000000000000,
            decreases SCALAR_SIZE_IN_BITS - i,
        {
            let ghost prev = bits@;
            let ghost cur0 = cur as nat;
            let b = cur % 2 == 1;
            bits.push(b);
            cur = cur / 2;
            proof {
                lemma_le_bits_push(prev, b);
                assert(cur0 == 2 * (cur as nat) + (if b {
                    1nat
                } else {
                    0nat
                }));
                assert(cur0 * pow2_of(i as nat) == (cur as nat) * pow2_of(i as nat + 1) + (if b {
                    pow2_of(i as nat)
                } else {
                    0nat
                })) by (nonlinear_arith)
                    requires
                        cur0 == 2 * (cur as nat) + (if b {
                            1nat
                        } else {
                            0nat
                        }),
                        pow2_of(i as nat + 1) == 2 * pow2_of(i as nat),
                ;
            }
            i += 1;
        }
        proof {
            lemma_le_bits_bound(bits@);
            assert((cur as nat) * pow2_of(SCALAR_SIZE_IN_BITS as nat) == 0 || (cur as nat)
                * pow2_of(SCALAR_SIZE_IN_BITS as nat) >= pow2_of(SCALAR_SIZE_IN_BITS as nat))
                by (nonlinear_arith);
            assert(cur == 0);
        }
        bits
    }

    /// Returns the scalar as a list of big-endian bits, at the scalar size.
    pub fn to_bits_be(&self) -> (r: Vec<bool>)
        requires
            self.wf(),
        ensures
            r@.len() == SCALAR_SIZE_IN_BITS,
            le_bits_value(r@.reverse()) == self.value,
    {
        let le = self.to_bits_le();
        let n = le.len();
        let mut bits: Vec<bool> = Vec::new();
        let mut i: usize = 0;
        while i < n
            invariant
                n == le@.len(),
                0 <= i <= n,
                bits@.len() == i,
                forall|j: int| 0 <= j < i ==> bits@[j] == le@[n - 1 - j],
            decreases n - i,
        {
            bits.push(le[n - 1 - i]);
            i += 1;
        }
        proof {
            assert(bits@.reverse() =~= le@);
        }
        bits
    }
}

/// Powers of two are monotone in the exponent.
proof fn lemma_pow2_le(a: nat, b: nat)
    requires
        a <= b,
    ensures
        pow2_of(a) <= pow2_of(b),
    decreases b,
{
    if a < b {
        lemma_pow2_le(a, (b - 1) as nat);
    }
}

} // verus!
