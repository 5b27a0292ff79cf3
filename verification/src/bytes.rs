//! Byte-sequence arithmetic shared by the codec, the verifier and the
//! 256-bit integer type: big-endian values, powers of 256, and small
//! verified helpers over byte vectors.

use vstd::prelude::*;

verus! {

/// The value of a byte sequence read as a big-endian unsigned integer.
pub open spec fn be_bytes_value(s: Seq<u8>) -> nat
    decreases s.len(),
{
    if s.len() == 0 {
        0
    } else {
        (be_bytes_value(s.drop_last()) * 256 + s.last()) as nat
    }
}

/// 256 to the power `n`: the number of values of an `n`-byte string.
pub open spec fn pow256(n: nat) -> nat
    decreases n,
{
    if n == 0 {
        1
    } else {
        256 * pow256((n - 1) as nat)
    }
}

/// A big-endian value is bounded by 256 to the length.
pub proof fn lemma_be_bytes_value_bound(s: Seq<u8>)
    ensures
        be_bytes_value(s) < pow256(s.len()),
    decreases s.len(),
{
    if s.len() > 0 {
        lemma_be_bytes_value_bound(s.drop_last());
    }
}

/// `pow256` grows with its argument.
pub proof fn lemma_pow256_increases(a: nat, b: nat)
    requires
        a <= b,
    ensures
        pow256(a) <= pow256(b),
    decreases b,
{
    if a < b {
        lemma_pow256_increases(a, (b - 1) as nat);
        assert(pow256(b) == 256 * pow256((b - 1) as nat));
    }
}

/// Whether two byte vectors hold the same bytes.
pub fn bytes_eq(a: &Vec<u8>, b: &Vec<u8>) -> (r: bool)
    ensures
        r <==> a@ == b@,
{
    if a.len() != b.len() {
        assert(a@ != b@);
        return false;
    }
    let n = a.len();
    let mut i: usize = 0;
    while i < n
        invariant
            n == a@.len() == b@.len(),
            i <= n,
            forall|j: int| 0 <= j < i ==> a@[j] == b@[j],
        decreases n - i,
    {
        if a[i] != b[i] {
            return false;
        }
        i += 1;
    }
    proof {
        assert(a@ =~= b@);
    }
    true
}

/// A fresh vector holding `d[start .. start + len]`.
pub fn copy_range(d: &Vec<u8>, start: usize, len: usize) -> (r: Vec<u8>)
    requires
        start + len <= d@.len(),
    ensures
        r@ == d@.subrange(start as int, start as int + len as int),
{
    let dlen = d.len();
    let mut r: Vec<u8> = Vec::new();
    let mut i: usize = 0;
    while i < len
        invariant
            dlen == d@.len(),
            start + len <= d@.len(),
            i <= len,
            r@ =~= d@.subrange(start as int, start as int + i as int),
        decreases len - i,
    {
        r.push(d[start + i]);
        i += 1;
    }
    proof {
        assert(r@ =~= d@.subrange(start as int, start as int + len as int));
    }
    r
}

/// The views of a sequence of byte vectors.
pub open spec fn seq_views(s: Seq<Vec<u8>>) -> Seq<Seq<u8>> {
    Seq::new(s.len(), |i: int| s[i]@)
}

} // verus!
