//! Commitments to alt-DA inputs and their byte encodings.

use vstd::prelude::*;
use crate::primitives::{hex_encode, keccak256, spec_hex_lower, spec_keccak256};
use crate::types::{commitment_type_byte, AltDaError, CommitmentType, TX_DATA_VERSION_1};

verus! {

/// The payload of a commitment as a pair of its kind and its bytes.
pub type CommitmentView = (CommitmentType, Seq<u8>);

/// The encoding of a commitment: its kind byte, then its payload.
pub open spec fn spec_encode(c: CommitmentView) -> Seq<u8> {
    seq![commitment_type_byte(c.0)] + c.1
}

/// The batcher transaction data of a commitment: the version byte, then its encoding.
pub open spec fn spec_tx_data(c: CommitmentView) -> Seq<u8> {
    seq![TX_DATA_VERSION_1] + spec_encode(c)
}

/// What decoding a commitment's encoding gives: `None` where the bytes are refused.
pub open spec fn spec_decode_commitment(input: Seq<u8>) -> Option<CommitmentView> {
    if input.len() == 0 {
        None
    } else if input[0] == 0 {
        if input.len() - 1 == 32 {
            Some((CommitmentType::Keccak256, input.drop_first()))
        } else {
            None
        }
    } else if input[0] == 1 {
        if input.len() - 1 > 0 {
            Some((CommitmentType::Generic, input.drop_first()))
        } else {
            None
        }
    } else {
        None
    }
}

/// A commitment that decoding can give back: a keccak payload has 32 bytes, a generic one
/// is not empty.
pub open spec fn commitment_wf(c: CommitmentView) -> bool {
    match c.0 {
        CommitmentType::Keccak256 => c.1.len() == 32,
        CommitmentType::Generic => c.1.len() > 0,
    }
}

/// Whether `input` is accepted by a commitment: a keccak commitment holds the digest of
/// the input, a generic one accepts every input.
pub open spec fn spec_verifies(c: CommitmentView, input: Seq<u8>) -> bool {
    match c.0 {
        CommitmentType::Keccak256 => spec_keccak256(input) == c.1,
        CommitmentType::Generic => true,
    }
}

/// Copies a byte slice.
fn copy_bytes(data: &[u8]) -> (res: Vec<u8>)
    ensures
        res@ == data@,
{
    vstd::slice::slice_to_vec(data)
}

/// Builds `prefix ++ payload`.
fn prefixed(prefix: &[u8], payload: &[u8]) -> (res: Vec<u8>)
    ensures
        res@ == prefix@ + payload@,
{
    let mut out: Vec<u8> = Vec::with_capacity(prefix.len());
    let mut i: usize = 0;
    while i < prefix.len()
        invariant
            i <= prefix@.len(),
            out@ == prefix@.take(i as int),
        decreases prefix@.len() - i,
    {
        out.push(prefix[i]);
        i = i + 1;
        assert(out@ =~= prefix@.take(i as int));
    }
    let mut j: usize = 0;
    while j < payload.len()
        invariant
            j <= payload@.len(),
            out@ == prefix@ + payload@.take(j as int),
        decreases payload@.len() - j,
    {
        out.push(payload[j]);
        j = j + 1;
        assert(out@ =~= prefix@ + payload@.take(j as int));
    }
    assert(payload@.take(payload@.len() as int) =~= payload@);
    assert(prefix@.take(prefix@.len() as int) =~= prefix@);
    out
}

/// A commitment that holds the keccak-256 digest of its input.
#[derive(Debug)]
pub struct Keccak256Commitment(Vec<u8>);

impl View for Keccak256Commitment {
    type V = Seq<u8>;

    closed spec fn view(&self) -> Seq<u8> {
        self.0@
    }
}

impl Clone for Keccak256Commitment {
    fn clone(&self) -> (res: Self)
        ensures
            res@ == self@,
    {
        Keccak256Commitment(copy_bytes(self.0.as_slice()))
    }
}

impl Keccak256Commitment {
    /// The commitment to `input`: its keccak-256 digest.
    pub fn new(input: &[u8]) -> (res: Self)
        ensures
            res@ == spec_keccak256(input@),
            res@.len() == 32,
    {
        Keccak256Commitment(keccak256(input))
    }

    /// Reads a keccak commitment payload; it must be 32 bytes long.
    pub fn decode(commitment: &[u8]) -> (res: Result<Self, AltDaError>)
        ensures
            commitment@.len() == 32 <==> res is Ok,
            res matches Ok(c) ==> c@ == commitment@,
            res matches Err(e) ==> e == AltDaError::InvalidCommitment,
    {
        if commitment.len() == 0 || commitment.len() != 32 {
            return Err(AltDaError::InvalidCommitment);
        }
        Ok(Keccak256Commitment(copy_bytes(commitment)))
    }

    /// The payload bytes.
    pub fn as_bytes(&self) -> (res: &[u8])
        ensures
            res@ == self@,
    {
        self.0.as_slice()
    }

    /// The kind of this commitment.
    pub fn commitment_type(&self) -> (res: CommitmentType)
        ensures
            res == CommitmentType::Keccak256,
    {
        CommitmentType::Keccak256
    }

    /// The encoding: the kind byte, then the digest.
    pub fn encode(&self) -> (res: Vec<u8>)
        ensures
            res@ == spec_encode((CommitmentType::Keccak256, self@)),
    {
        let prefix: [u8; 1] = [0];
        assert(prefix@ =~= seq![0u8]);
        prefixed(prefix.as_slice(), self.0.as_slice())
    }

    /// The batcher transaction data: the version byte, the kind byte, then the digest.
    pub fn tx_data(&self) -> (res: Vec<u8>)
        ensures
            res@ == spec_tx_data((CommitmentType::Keccak256, self@)),
    {
        let prefix: [u8; 2] = [TX_DATA_VERSION_1, 0];
        assert(prefix@ =~= seq![TX_DATA_VERSION_1, 0u8]);
        assert(spec_tx_data((CommitmentType::Keccak256, self@)) =~= seq![TX_DATA_VERSION_1, 0u8]
            + self@);
        prefixed(prefix.as_slice(), self.0.as_slice())
    }

    /// Checks that `input` hashes to the digest.
    pub fn verify(&self, input: &[u8]) -> (res: Result<(), AltDaError>)
        ensures
            res is Ok <==> spec_keccak256(input@) == self@,
            res matches Err(e) ==> e == AltDaError::CommitmentMismatch,
    {
        let hash = keccak256(input);
        if crate::primitives::bytes_equal(hash.as_slice(), self.0.as_slice()) {
            Ok(())
        } else {
            Err(AltDaError::CommitmentMismatch)
        }
    }

    /// The hex text of the encoding.
    pub fn to_string(&self) -> (res: String)
        ensures
            res@ == spec_hex_lower(spec_encode((CommitmentType::Keccak256, self@))),
    {
        let encoded = self.encode();
        hex_encode(encoded.as_slice())
    }
}

/// A commitment that the derivation does not check against its input.
#[derive(Debug)]
pub struct GenericCommitment(Vec<u8>);

impl View for GenericCommitment {
    type V = Seq<u8>;

    closed spec fn view(&self) -> Seq<u8> {
        self.0@
    }
}

impl Clone for GenericCommitment {
    fn clone(&self) -> (res: Self)
        ensures
            res@ == self@,
    {
        GenericCommitment(copy_bytes(self.0.as_slice()))
    }
}

impl GenericCommitment {
    /// The generic commitment whose payload is `input` itself.
    pub fn new(input: &[u8]) -> (res: Self)
        ensures
            res@ == input@,
    {
        GenericCommitment(copy_bytes(input))
    }

    /// Reads a generic commitment payload; it must not be empty.
    pub fn decode(commitment: &[u8]) -> (res: Result<Self, AltDaError>)
        ensures
            commitment@.len() > 0 <==> res is Ok,
            res matches Ok(c) ==> c@ == commitment@,
            res matches Err(e) ==> e == AltDaError::InvalidCommitment,
    {
        if commitment.len() == 0 {
            return Err(AltDaError::InvalidCommitment);
        }
        Ok(GenericCommitment(copy_bytes(commitment)))
    }

    /// The payload bytes.
    pub fn as_bytes(&self) -> (res: &[u8])
        ensures
            res@ == self@,
    {
        self.0.as_slice()
    }

    /// The kind of this commitment.
    pub fn commitment_type(&self) -> (res: CommitmentType)
        ensures
            res == CommitmentType::Generic,
    {
        CommitmentType::Generic
    }

    /// The encoding: the kind byte, then the payload.
    pub fn encode(&self) -> (res: Vec<u8>)
        ensures
            res@ == spec_encode((CommitmentType::Generic, self@)),
    {
        let prefix: [u8; 1] = [1];
        assert(prefix@ =~= seq![1u8]);
        prefixed(prefix.as_slice(), self.0.as_slice())
    }

    /// The batcher transaction data: the version byte, the kind byte, then the payload.
    pub fn tx_data(&self) -> (res: Vec<u8>)
        ensures
            res@ == spec_tx_data((CommitmentType::Generic, self@)),
    {
        let prefix: [u8; 2] = [TX_DATA_VERSION_1, 1];
        assert(prefix@ =~= seq![TX_DATA_VERSION_1, 1u8]);
        assert(spec_tx_data((CommitmentType::Generic, self@)) =~= seq![TX_DATA_VERSION_1, 1u8]
            + self@);
        prefixed(prefix.as_slice(), self.0.as_slice())
    }

    /// Accepts every input.
    pub fn verify(&self, input: &[u8]) -> (res: Result<(), AltDaError>)
        ensures
            res is Ok,
    {
        Ok(())
    }

    /// The hex text of the encoding.
    pub fn to_string(&self) -> (res: String)
        ensures
            res@ == spec_hex_lower(spec_encode((CommitmentType::Generic, self@))),
    {
        let encoded = self.encode();
        hex_encode(encoded.as_slice())
    }
}

/// A commitment of either kind.
#[derive(Debug)]
pub enum CommitmentData {
    /// A keccak-256 commitment.
    Keccak256(Keccak256Commitment),
    /// A generic commitment.
    Generic(GenericCommitment),
}

impl View for CommitmentData {
    type V = CommitmentView;

    open spec fn view(&self) -> CommitmentView {
        match self {
            CommitmentData::Keccak256(c) => (CommitmentType::Keccak256, c@),
            CommitmentData::Generic(c) => (CommitmentType::Generic, c@),
        }
    }
}

impl Clone for CommitmentData {
    fn clone(&self) -> (res: Self)
        ensures
            res@ == self@,
    {
        match self {
            CommitmentData::Keccak256(c) => CommitmentData::Keccak256(c.clone()),
            CommitmentData::Generic(c) => CommitmentData::Generic(c.clone()),
        }
    }
}

impl CommitmentData {
    /// The payload bytes.
    pub fn payload(&self) -> (res: &[u8])
        ensures
            res@ == self@.1,
    {
        match self {
            CommitmentData::Keccak256(c) => c.as_bytes(),
            CommitmentData::Generic(c) => c.as_bytes(),
        }
    }

    /// The kind of this commitment.
    pub fn commitment_type(&self) -> (res: CommitmentType)
        ensures
            res == self@.0,
    {
        match self {
            CommitmentData::Keccak256(_) => CommitmentType::Keccak256,
            CommitmentData::Generic(_) => CommitmentType::Generic,
        }
    }

    /// The encoding: the kind byte, then the payload.
    pub fn encode(&self) -> (res: Vec<u8>)
        ensures
            res@ == spec_encode(self@),
    {
        match self {
            CommitmentData::Keccak256(c) => c.encode(),
            CommitmentData::Generic(c) => c.encode(),
        }
    }

    /// The batcher transaction data: the version byte, the kind byte, then the payload.
    pub fn tx_data(&self) -> (res: Vec<u8>)
        ensures
            res@ == spec_tx_data(self@),
    {
        match self {
            CommitmentData::Keccak256(c) => c.tx_data(),
            CommitmentData::Generic(c) => c.tx_data(),
        }
    }

    /// Checks `input` against the commitment.
    pub fn verify(&self, input: &[u8]) -> (res: Result<(), AltDaError>)
        ensures
            res is Ok <==> spec_verifies(self@, input@),
            res matches Err(e) ==> e == AltDaError::CommitmentMismatch,
    {
        match self {
            CommitmentData::Keccak256(c) => c.verify(input),
            CommitmentData::Generic(c) => c.verify(input),
        }
    }

    /// The hex text of the encoding.
    pub fn to_string(&self) -> (res: String)
        ensures
            res@ == spec_hex_lower(spec_encode(self@)),
    {
        match self {
            CommitmentData::Keccak256(c) => c.to_string(),
            CommitmentData::Generic(c) => c.to_string(),
        }
    }
}

/// The commitment of the given kind to `input`.
pub fn new_commitment_data(t: CommitmentType, input: &[u8]) -> (res: CommitmentData)
    ensures
        res@.0 == t,
        t == CommitmentType::Keccak256 ==> res@.1 == spec_keccak256(input@),
        t == CommitmentType::Generic ==> res@.1 == input@,
        t == CommitmentType::Keccak256 ==> commitment_wf(res@),
{
    match t {
        CommitmentType::Keccak256 => CommitmentData::Keccak256(Keccak256Commitment::new(input)),
        CommitmentType::Generic => CommitmentData::Generic(GenericCommitment::new(input)),
    }
}

/// Reads an encoded commitment: a kind byte, then the payload.
pub fn decode_commitment_data(input: &[u8]) -> (res: Result<CommitmentData, AltDaError>)
    ensures
        match spec_decode_commitment(input@) {
            Some(c) => res matches Ok(d) && d@ == c,
            None => res == Err::<CommitmentData, AltDaError>(AltDaError::InvalidCommitment),
        },
        input@.len() >= 2 && input@[0] == 1 ==> (res matches Ok(d) && d@ == (
            CommitmentType::Generic,
            input@.drop_first(),
        )),
        input@.len() == 33 && input@[0] == 0 ==> (res matches Ok(d) && d@ == (
            CommitmentType::Keccak256,
            input@.drop_first(),
        )),
{
    proof {
        if input@.len() >= 2 && input@[0] == 1 {
            law_decode_generic(input@.drop_first());
            assert(input@ =~= seq![1u8] + input@.drop_first());
        }
        if input@.len() == 33 && input@[0] == 0 {
            law_decode_keccak(input@.drop_first());
            assert(input@ =~= seq![0u8] + input@.drop_first());
        }
    }
    if input.len() == 0 {
        return Err(AltDaError::InvalidCommitment);
    }
    let t = input[0];
    let data = vstd::slice::slice_subrange(input, 1, input.len());
    assert(data@ =~= input@.drop_first());
    if t == 0 {
        match Keccak256Commitment::decode(data) {
            Ok(c) => Ok(CommitmentData::Keccak256(c)),
            Err(e) => Err(e),
        }
    } else if t == 1 {
        match GenericCommitment::decode(data) {
            Ok(c) => Ok(CommitmentData::Generic(c)),
            Err(e) => Err(e),
        }
    } else {
        Err(AltDaError::InvalidCommitment)
    }
}

/// The kind byte 1 followed by any non-empty payload, whatever its length, decodes to the
/// generic commitment with that payload.
pub proof fn law_decode_generic(payload: Seq<u8>)
    requires
        payload.len() > 0,
    ensures
        spec_decode_commitment(seq![1u8] + payload) == Some((CommitmentType::Generic, payload)),
{
    assert((seq![1u8] + payload).drop_first() =~= payload);
}

/// The kind byte 0 followed by a 32-byte digest decodes to the keccak commitment with
/// that digest.
pub proof fn law_decode_keccak(digest: Seq<u8>)
    requires
        digest.len() == 32,
    ensures
        spec_decode_commitment(seq![0u8] + digest) == Some((CommitmentType::Keccak256, digest)),
{
    assert((seq![0u8] + digest).drop_first() =~= digest);
}

/// Decoding refuses exactly: the empty input, an unknown kind byte, a keccak payload of
/// another length than 32, and an empty generic payload.
pub proof fn law_decode_refuses(input: Seq<u8>)
    ensures
        spec_decode_commitment(input) is None <==> (input.len() == 0 || (input[0] != 0
            && input[0] != 1) || (input[0] == 0 && input.len() != 33) || (input[0] == 1
            && input.len() == 1)),
{
}

/// Decoding gives back every commitment that decoding can give.
pub proof fn lemma_decode_encode(c: CommitmentView)
    requires
        commitment_wf(c),
    ensures
        spec_decode_commitment(spec_encode(c)) == Some(c),
{
    let e = spec_encode(c);
    assert(e.drop_first() =~= c.1);
}

/// What decoding accepts, encoding gives back byte for byte.
pub proof fn lemma_encode_decode(input: Seq<u8>)
    requires
        spec_decode_commitment(input) is Some,
    ensures
        spec_encode(spec_decode_commitment(input).unwrap()) == input,
        commitment_wf(spec_decode_commitment(input).unwrap()),
{
    let c = spec_decode_commitment(input).unwrap();
    assert(spec_encode(c) =~= input);
}

/// A keccak commitment made from an input accepts that input.
pub proof fn lemma_keccak_commitment_verifies_its_input(input: Seq<u8>)
    ensures
        spec_verifies((CommitmentType::Keccak256, spec_keccak256(input)), input),
{
}

} // verus!
