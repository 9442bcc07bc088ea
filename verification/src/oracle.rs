//! The preimage keys under which the fault-proof client finds alt-DA data in its oracle.

use vstd::prelude::*;
use crate::commitment::{spec_encode, CommitmentData};
use crate::primitives::{keccak256, spec_keccak256};

verus! {

/// The preimage hash of an alt-DA commitment's data: the digest of its encoding.
pub fn commitment_preimage_hash(comm: &CommitmentData) -> (res: Vec<u8>)
    ensures
        res@ == spec_keccak256(spec_encode(comm@)),
        res@.len() == 32,
{
    let encoded = comm.encode();
    keccak256(encoded.as_slice())
}

/// The eight big-endian bytes of a `u64`.
pub open spec fn u64_be_bytes(n: u64) -> Seq<u8> {
    Seq::new(8, |k: int| ((n >> ((56 - 8 * k) as u64)) & 0xff) as u8)
}

/// The eight big-endian bytes of `n`.
pub fn u64_to_be_bytes(n: u64) -> (res: Vec<u8>)
    ensures
        res@ == u64_be_bytes(n),
{
    let mut out: Vec<u8> = Vec::new();
    let mut k: u64 = 0;
    while k < 8
        invariant
            k <= 8,
            out@.len() == k,
            forall|j: int| 0 <= j < k ==> out@[j] == ((n >> ((56 - 8 * j) as u64)) & 0xff) as u8,
        decreases 8 - k,
    {
        out.push(((n >> (56 - 8 * k)) & 0xff) as u8);
        k = k + 1;
    }
    assert(out@ =~= u64_be_bytes(n));
    out
}

/// The key data of a Celestia blob in the oracle: the height as eight big-endian bytes,
/// then the blob's commitment.
pub fn celestia_preimage_input(height: u64, commitment: &[u8; 32]) -> (res: Vec<u8>)
    ensures
        res@ == u64_be_bytes(height) + commitment@,
{
    let mut encoded = u64_to_be_bytes(height);
    let mut i: usize = 0;
    while i < 32
        invariant
            i <= 32,
            commitment@.len() == 32,
            encoded@ == u64_be_bytes(height) + commitment@.take(i as int),
        decreases 32 - i,
    {
        encoded.push(commitment[i]);
        i = i + 1;
        assert(encoded@ =~= u64_be_bytes(height) + commitment@.take(i as int));
    }
    assert(commitment@.take(32) =~= commitment@);
    encoded
}

/// The preimage hash of a Celestia blob: the digest of its key data.
pub fn celestia_preimage_hash(height: u64, commitment: &[u8; 32]) -> (res: Vec<u8>)
    ensures
        res@ == spec_keccak256(u64_be_bytes(height) + commitment@),
        res@.len() == 32,
{
    let encoded = celestia_preimage_input(height, commitment);
    keccak256(encoded.as_slice())
}

} // verus!
