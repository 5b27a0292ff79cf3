//! A 256-bit unsigned integer with checked arithmetic.
//!
//! Balances and issuance counters are 256-bit values; both mutating ledger
//! operations go through `checked_add` / `checked_sub`, which detect range
//! overflow and underflow instead of wrapping.

use vstd::prelude::*;
use crate::bytes::{be_bytes_value, pow256, lemma_be_bytes_value_bound, lemma_pow256_increases};

verus! {

/// 2 to the power 128, the weight of the high limb.
pub open spec fn pow2_128() -> nat {
    0x1_0000_0000_0000_0000_0000_0000_0000_0000nat
}

/// The largest value a 256-bit unsigned integer can hold.
pub open spec fn u256_max() -> nat {
    (pow256(32) - 1) as nat
}

/// `pow256(32)` is the square of `pow2_128()`.
pub proof fn lemma_pow256_32()
    ensures
        pow256(16) == pow2_128(),
        pow256(32) == pow2_128() * pow2_128(),
{
    reveal_with_fuel(pow256, 33);
}

/// A 256-bit unsigned integer, stored as two 128-bit limbs.
#[derive(Clone, Copy, Debug, PartialEq, Eq, Structural)]
pub struct U256 {
    lo: u128,
    hi: u128,
}

impl View for U256 {
    type V = nat;

    closed spec fn view(&self) -> nat {
        self.lo as nat + self.hi as nat * pow2_128()
    }
}

impl U256 {
    /// Every representable value lies in the 256-bit range.
    pub proof fn lemma_in_range(&self)
        ensures
            self@ <= u256_max(),
    {
        lemma_pow256_32();
        assert(self.hi as nat * pow2_128() <= (pow2_128() - 1) * pow2_128()) by (nonlinear_arith)
            requires
                self.hi as nat <= pow2_128() - 1,
        ;
    }

    /// The zero value.
    pub fn zero() -> (r: U256)
        ensures
            r@ == 0,
    {
        U256 { lo: 0, hi: 0 }
    }

    /// The largest representable value.
    pub fn max_value() -> (r: U256)
        ensures
            r@ == u256_max(),
    {
        proof {
            lemma_pow256_32();
        }
        U256 { lo: u128::MAX, hi: u128::MAX }
    }

    /// Embed a 64-bit value.
    pub fn from_u64(x: u64) -> (r: U256)
        ensures
            r@ == x as nat,
    {
        U256 { lo: x as u128, hi: 0 }
    }

    /// Embed a 128-bit value.
    pub fn from_u128(x: u128) -> (r: U256)
        ensures
            r@ == x as nat,
    {
        U256 { lo: x, hi: 0 }
    }

    /// Whether this is the zero value.
    pub fn is_zero(&self) -> (r: bool)
        ensures
            r <==> self@ == 0,
    {
        self.lo == 0 && self.hi == 0
    }

    /// Whether two values are equal.
    pub fn equals(&self, other: &U256) -> (r: bool)
        ensures
            r <==> self@ == other@,
    {
        self.lo == other.lo && self.hi == other.hi
    }

    /// Overflow-detecting addition: the sum, unless it leaves the
    /// 256-bit range.
    pub fn checked_add(&self, other: &U256) -> (r: Option<U256>)
        ensures
            r is Some <==> self@ + other@ <= u256_max(),
            r matches Some(c) ==> c@ == self@ + other@,
    {
        proof {
            lemma_pow256_32();
        }
        let carry: u128 = if self.lo > u128::MAX - other.lo {
            1
        } else {
            0
        };
        let lo: u128 = if carry == 1 {
            (self.lo - (u128::MAX - other.lo)) - 1
        } else {
            self.lo + other.lo
        };
        proof {
            assert(lo as nat + carry as nat * pow2_128() == self.lo as nat + other.lo as nat);
        }
        if self.hi <= u128::MAX - carry && other.hi <= (u128::MAX - carry) - self.hi {
            let hi = self.hi + carry + other.hi;
            proof {
                assert((self.hi as nat + carry as nat + other.hi as nat) * pow2_128()
                    == self.hi as nat * pow2_128() + carry as nat * pow2_128()
                        + other.hi as nat * pow2_128()) by (nonlinear_arith);
            }
            Some(U256 { lo, hi })
        } else {
            proof {
                assert(self.hi as nat + other.hi as nat + carry as nat >= pow2_128());
                assert((self.hi as nat + other.hi as nat) * pow2_128()
                    >= (pow2_128() - carry as nat) * pow2_128()) by (nonlinear_arith)
                    requires
                        self.hi as nat + other.hi as nat >= pow2_128() - carry as nat,
                ;
                assert(self@ + other@ > u256_max());
            }
            None
        }
    }

    /// Underflow-detecting subtraction: the difference, unless the
    /// subtrahend is larger.
    pub fn checked_sub(&self, other: &U256) -> (r: Option<U256>)
        ensures
            r is Some <==> self@ >= other@,
            r matches Some(c) ==> c@ == self@ - other@,
    {
        let borrow: u128 = if self.lo < other.lo {
            1
        } else {
            0
        };
        let lo: u128 = if borrow == 1 {
            (self.lo + (u128::MAX - other.lo)) + 1
        } else {
            self.lo - other.lo
        };
        proof {
            assert(lo as nat == self.lo as nat + borrow as nat * pow2_128() - other.lo as nat);
        }
        if self.hi >= borrow && self.hi - borrow >= other.hi {
            let hi = (self.hi - borrow) - other.hi;
            proof {
                assert((self.hi as nat - borrow as nat - other.hi as nat) * pow2_128()
                    == self.hi as nat * pow2_128() - borrow as nat * pow2_128()
                        - other.hi as nat * pow2_128()) by (nonlinear_arith);
            }
            Some(U256 { lo, hi })
        } else {
            proof {
                assert((self.hi as nat) < (borrow as nat) + (other.hi as nat));
                assert(self.hi as nat * pow2_128() <= (other.hi as nat + borrow as nat - 1)
                    * pow2_128()) by (nonlinear_arith)
                    requires
                        self.hi as nat <= other.hi as nat + borrow as nat - 1,
                ;
                assert((other.hi as nat + borrow as nat - 1) * pow2_128()
                    == other.hi as nat * pow2_128() + borrow as nat * pow2_128() - pow2_128())
                    by (nonlinear_arith);
                assert(self@ < other@);
            }
            None
        }
    }

    /// The value of a big-endian byte string of at most 32 bytes.
    pub fn from_be_bytes(bytes: &Vec<u8>) -> (r: U256)
        requires
            bytes@.len() <= 32,
        ensures
            r@ == be_bytes_value(bytes@),
    {
        proof {
            lemma_pow256_32();
        }
        let n = bytes.len();
        if n <= 16 {
            let lo = be_u128(bytes, 0, n);
            proof {
                assert(bytes@.subrange(0, n as int) =~= bytes@);
            }
            U256 { lo, hi: 0 }
        } else {
            let hi = be_u128(bytes, 0, n - 16);
            let lo = be_u128(bytes, n - 16, n);
            proof {
                lemma_be_split(bytes@, n as int - 16);
                assert(bytes@.take(n as int - 16) =~= bytes@.subrange(0, n as int - 16));
                assert(bytes@.skip(n as int - 16) =~= bytes@.subrange(n as int - 16, n as int));
            }
            U256 { lo, hi }
        }
    }
}

/// The value of `d[start .. end]` read as a big-endian integer, for a range
/// of at most 16 bytes.
pub fn be_u128(d: &Vec<u8>, start: usize, end: usize) -> (r: u128)
    requires
        start <= end <= d@.len(),
        end - start <= 16,
    ensures
        r as nat == be_bytes_value(d@.subrange(start as int, end as int)),
{
    let dlen = d.len();
    let mut acc: u128 = 0;
    let mut i: usize = start;
    proof {
        lemma_pow256_32();
        assert(d@.subrange(start as int, start as int) =~= Seq::<u8>::empty());
    }
    while i < end
        invariant
            start <= i <= end <= dlen,
            dlen == d@.len(),
            end - start <= 16,
            acc as nat == be_bytes_value(d@.subrange(start as int, i as int)),
            pow256(16) == pow2_128(),
        decreases end - i,
    {
        proof {
            lemma_be_bytes_value_bound(d@.subrange(start as int, i as int));
            lemma_pow256_increases((i - start + 1) as nat, 16);
            assert(pow256((i - start + 1) as nat) == 256 * pow256((i - start) as nat));
            assert(d@.subrange(start as int, i as int + 1).drop_last()
                =~= d@.subrange(start as int, i as int));
        }
        acc = acc * 256 + (d[i] as u128);
        i += 1;
    }
    acc
}

/// Splitting a byte string splits its big-endian value.
pub proof fn lemma_be_split(s: Seq<u8>, k: int)
    requires
        0 <= k <= s.len(),
    ensures
        be_bytes_value(s) == be_bytes_value(s.take(k)) * pow256((s.len() - k) as nat)
            + be_bytes_value(s.skip(k)),
    decreases s.len() - k,
{
    if k == s.len() {
        assert(s.take(k) =~= s);
        assert(s.skip(k) =~= Seq::<u8>::empty());
        assert(pow256(0) == 1);
        assert(be_bytes_value(s.take(k)) * pow256(0) == be_bytes_value(s.take(k)))
            by (nonlinear_arith)
            requires
                pow256(0) == 1,
        ;
    } else {
        let t = s.drop_last();
        lemma_be_split(t, k);
        assert(t.take(k) =~= s.take(k));
        assert(t.skip(k) =~= s.skip(k).drop_last());
        assert(s.skip(k).last() == s.last());
        assert(pow256((s.len() - k) as nat) == 256 * pow256((s.len() - 1 - k) as nat));
        assert((be_bytes_value(s.take(k)) * pow256((s.len() - 1 - k) as nat)) * 256
            == be_bytes_value(s.take(k)) * pow256((s.len() - k) as nat)) by (nonlinear_arith)
            requires
                pow256((s.len() - k) as nat) == 256 * pow256((s.len() - 1 - k) as nat),
        ;
        assert(be_bytes_value(s) == be_bytes_value(t) * 256 + s.last());
        assert(be_bytes_value(s.skip(k))
            == be_bytes_value(s.skip(k).drop_last()) * 256 + s.skip(k).last());
        assert(be_bytes_value(t) * 256
            == (be_bytes_value(s.take(k)) * pow256((s.len() - 1 - k) as nat)) * 256
                + be_bytes_value(t.skip(k)) * 256);
        assert(be_bytes_value(t.skip(k)) == be_bytes_value(s.skip(k).drop_last()));
        assert(be_bytes_value(t.skip(k)) * 256 + s.last() == be_bytes_value(s.skip(k)));
        assert(be_bytes_value(s)
            == be_bytes_value(s.take(k)) * pow256((s.len() - k) as nat)
                + be_bytes_value(t.skip(k)) * 256 + s.last());
    }
}

} // verus!
