//! Small byte-buffer helpers shared by the format layer.

use vstd::prelude::*;
use vstd::string::StringSliceAdditionalSpecFns;

verus! {

/// `b` followed by NUL padding up to length `n`.
pub open spec fn spec_extend_bytes(b: Seq<u8>, n: nat) -> Seq<u8>
    recommends
        b.len() <= n,
{
    b + Seq::new((n - b.len()) as nat, |i: int| 0u8)
}

/// The bytes of `s` laid into a zero-padded buffer of `n` bytes. Inputs
/// longer than `n` are excluded: the buffer cannot carry them.
pub fn extend_str(s: &str, n: usize) -> (r: Vec<u8>)
    requires
        s.spec_bytes().len() <= n,
    ensures
        r@ == spec_extend_bytes(s.spec_bytes(), n as nat),
        r@.len() == n,
{
    let bs = s.as_bytes();
    let mut v = vstd::slice::slice_to_vec(bs);
    while v.len() < n
        invariant
            s.spec_bytes().len() <= v@.len() <= n,
            v@ == spec_extend_bytes(s.spec_bytes(), v@.len() as nat),
        decreases n - v@.len(),
    {
        let ghost prev = v@;
        v.push(0u8);
        proof {
            assert(v@ =~= spec_extend_bytes(s.spec_bytes(), v@.len() as nat));
        }
    }
    v
}

/// The bytes of `b` before its first NUL, or all of `b` when it holds none.
pub open spec fn spec_before_nul(b: Seq<u8>) -> Seq<u8>
    decreases b.len(),
{
    if b.len() == 0 {
        b
    } else if b[0] == 0 {
        Seq::<u8>::empty()
    } else {
        seq![b[0]] + spec_before_nul(b.drop_first())
    }
}

/// A scan that stopped at `k` (all earlier bytes non-NUL, byte `k` NUL or
/// end) has found exactly the prefix before the first NUL.
pub proof fn lemma_before_nul_is_take(b: Seq<u8>, k: int)
    requires
        0 <= k <= b.len(),
        forall|i: int| 0 <= i < k ==> b[i] != 0,
        k < b.len() ==> b[k] == 0,
    ensures
        spec_before_nul(b) == b.take(k),
    decreases k,
{
    if k == 0 {
        assert(spec_before_nul(b) =~= b.take(0));
    } else {
        assert(b[0] != 0);
        assert forall|i: int| 0 <= i < k - 1 implies b.drop_first()[i] != 0 by {
            assert(b[i + 1] != 0);
        }
        lemma_before_nul_is_take(b.drop_first(), k - 1);
        assert(spec_before_nul(b) =~= b.take(k));
    }
}

/// Scans `b` and returns its prefix before the first NUL byte.
pub fn before_nul(b: &[u8]) -> (r: Vec<u8>)
    ensures
        r@ == spec_before_nul(b@),
{
    let blen = b.len();
    let mut k: usize = 0;
    while k < blen && *vstd::slice::slice_index_get(b, k) != 0
        invariant
            k <= b@.len(),
            blen == b@.len(),
            forall|i: int| 0 <= i < k ==> b@[i] != 0,
        decreases blen - k,
    {
        k = k + 1;
    }
    let r = vstd::slice::slice_to_vec(vstd::slice::slice_subrange(b, 0, k));
    proof {
        lemma_before_nul_is_take(b@, k as int);
        assert(r@ =~= spec_before_nul(b@));
    }
    r
}

} // verus!
