//! Errors, commitment kinds and protocol constants.

use vstd::prelude::*;

verus! {

/// An alt-DA error.
#[derive(Debug, Clone, Copy, PartialEq, Eq, Structural)]
pub enum AltDaError {
    /// A reorg is required.
    ReorgRequired,
    /// Not enough data.
    NotEnoughData,
    /// The commitment was challenged, but the challenge period expired.
    ChallengeExpired,
    /// Missing data past the challenge period.
    MissingPastWindow,
    /// A challenge is pending for the given commitment.
    ChallengePending,
    /// A challenge event was decoded but does not relate to the actual chain commitment.
    InvalidChallenge,
    /// An invalid commitment was received.
    InvalidCommitment,
    /// An invalid commitment type was received.
    InvalidCommitmentType,
    /// The commitment could not be found by the DA server.
    NotFound,
    /// The DA server failed to get the preimage.
    FailedToGetPreimage,
    /// An invalid input was given.
    InvalidInput,
    /// A network error occurred.
    NetworkError,
    /// The commitment used to fetch the preimage does not match the preimage.
    CommitmentMismatch,
    /// A challenge event could not be decoded.
    DecodeError,
    /// Unknown challenge status.
    UnknownStatus,
}

/// The human readable message of each error.
pub open spec fn error_message(e: AltDaError) -> Seq<char> {
    match e {
        AltDaError::ReorgRequired => "reorg required"@,
        AltDaError::NotEnoughData => "not enough data"@,
        AltDaError::ChallengeExpired => "challenge expired"@,
        AltDaError::MissingPastWindow => "missing past window"@,
        AltDaError::ChallengePending => "challenge pending"@,
        AltDaError::InvalidChallenge => "invalid challenge"@,
        AltDaError::InvalidCommitmentType => "invalid commitment type"@,
        AltDaError::InvalidCommitment => "invalid commitment"@,
        AltDaError::NotFound => "not found"@,
        AltDaError::FailedToGetPreimage => "failed to get preimage"@,
        AltDaError::InvalidInput => "invalid input"@,
        AltDaError::NetworkError => "network error"@,
        AltDaError::CommitmentMismatch => "commitment mistmatch"@,
        AltDaError::DecodeError => "could not decode challenge event"@,
        AltDaError::UnknownStatus => "unknown challenge status"@,
    }
}

impl AltDaError {
    /// The message that displaying this error shows.
    pub fn message(&self) -> (res: &'static str)
        ensures
            res@ == error_message(*self),
    {
        match self {
            AltDaError::ReorgRequired => "reorg required",
            AltDaError::NotEnoughData => "not enough data",
            AltDaError::ChallengeExpired => "challenge expired",
            AltDaError::MissingPastWindow => "missing past window",
            AltDaError::ChallengePending => "challenge pending",
            AltDaError::InvalidChallenge => "invalid challenge",
            AltDaError::InvalidCommitmentType => "invalid commitment type",
            AltDaError::InvalidCommitment => "invalid commitment",
            AltDaError::NotFound => "not found",
            AltDaError::FailedToGetPreimage => "failed to get preimage",
            AltDaError::InvalidInput => "invalid input",
            AltDaError::NetworkError => "network error",
            AltDaError::CommitmentMismatch => "commitment mistmatch",
            AltDaError::DecodeError => "could not decode challenge event",
            AltDaError::UnknownStatus => "unknown challenge status",
        }
    }
}

/// Max input size ensures the canonical chain cannot include input batches too large to
/// challenge in the Data Availability Challenge contract. Value in number of bytes.
pub const MAX_INPUT_SIZE: usize = 130672;

/// The version byte of batcher transactions that carry alt-DA commitments.
pub const TX_DATA_VERSION_1: u8 = 1;

/// The kind of a commitment.
#[derive(Debug, Clone, Copy, PartialEq, Eq, Structural)]
pub enum CommitmentType {
    /// The commitment is the keccak-256 hash of the input.
    Keccak256,
    /// The commitment is opaque to the derivation and is not checked.
    Generic,
}

/// The byte that stands for a commitment kind in encodings.
pub open spec fn commitment_type_byte(t: CommitmentType) -> u8 {
    match t {
        CommitmentType::Keccak256 => 0,
        CommitmentType::Generic => 1,
    }
}

/// A block's number and hash.
#[derive(Debug, Clone, Copy)]
pub struct BlockNumHash {
    /// The block hash.
    pub hash: [u8; 32],
    /// The block number.
    pub number: u64,
}

/// What the derivation knows of an L1 block.
#[derive(Debug, Clone, Copy)]
pub struct BlockInfo {
    /// The block hash.
    pub hash: [u8; 32],
    /// The block number.
    pub number: u64,
    /// The hash of the parent block.
    pub parent_hash: [u8; 32],
    /// The block timestamp.
    pub timestamp: u64,
}

/// The block info that stands where none is known: all fields zero.
pub open spec fn is_zero_block(b: BlockInfo) -> bool {
    &&& b.number == 0
    &&& b.timestamp == 0
    &&& forall|i: int| 0 <= i < 32 ==> b.hash@[i] == 0 && b.parent_hash@[i] == 0
}

impl BlockInfo {
    /// The number and hash of this block.
    pub fn id(&self) -> (res: BlockNumHash)
        ensures
            res.hash == self.hash,
            res.number == self.number,
    {
        BlockNumHash { hash: self.hash, number: self.number }
    }

    /// The block info whose fields are all zero.
    pub fn zero() -> (res: BlockInfo)
        ensures
            is_zero_block(res),
    {
        let res = BlockInfo { hash: [0u8; 32], number: 0, parent_hash: [0u8; 32], timestamp: 0 };
        res
    }
}

impl BlockNumHash {
    /// The number and hash whose fields are all zero.
    pub fn zero() -> (res: BlockNumHash)
        ensures
            res.number == 0,
            forall|i: int| 0 <= i < 32 ==> res.hash@[i] == 0,
    {
        BlockNumHash { hash: [0u8; 32], number: 0 }
    }
}

/// Settings of the alt-DA input fetcher.
#[derive(Debug, Clone, Copy)]
pub struct InputFetcherConfig {
    /// The challenge contract, whose events are followed.
    pub da_challenge_contract: [u8; 20],
    /// The commitment kind the fetcher accepts.
    pub commitment_type: CommitmentType,
    /// The number of L1 blocks after an input is committed during which one can challenge.
    pub challenge_window: u64,
    /// The number of L1 blocks after a commitment is challenged during which one can resolve.
    pub resolve_window: u64,
}

/// Whether two strings hold the same characters.
pub fn str_equals(a: &str, b: &str) -> (res: bool)
    ensures
        res == (a@ == b@),
{
    let n = a.unicode_len();
    if n != b.unicode_len() {
        return false;
    }
    let mut i: usize = 0;
    while i < n
        invariant
            n == a@.len(),
            n == b@.len(),
            i <= n,
            forall|j: int| 0 <= j < i ==> a@[j] == b@[j],
        decreases n - i,
    {
        if a.get_char(i) != b.get_char(i) {
            return false;
        }
        i = i + 1;
    }
    assert(a@ =~= b@);
    true
}

impl CommitmentType {
    /// The byte that stands for this kind in encodings.
    pub fn to_byte(&self) -> (res: u8)
        ensures
            res == commitment_type_byte(*self),
    {
        match self {
            CommitmentType::Keccak256 => 0,
            CommitmentType::Generic => 1,
        }
    }

    /// Parses the name of a commitment kind.
    pub fn from_string(s: &str) -> (res: Result<CommitmentType, AltDaError>)
        ensures
            s@ == "KeccakCommitment"@ ==> res == Ok::<CommitmentType, AltDaError>(
                CommitmentType::Keccak256,
            ),
            s@ == "GenericCommitment"@ ==> res == Ok::<CommitmentType, AltDaError>(
                CommitmentType::Generic,
            ),
            s@ != "KeccakCommitment"@ && s@ != "GenericCommitment"@ ==> res == Err::<
                CommitmentType,
                AltDaError,
            >(AltDaError::InvalidCommitmentType),
    {
        proof {
            reveal_strlit("KeccakCommitment");
            reveal_strlit("GenericCommitment");
            assert("KeccakCommitment"@[0] != "GenericCommitment"@[0]);
        }
        if str_equals(s, "KeccakCommitment") {
            Ok(CommitmentType::Keccak256)
        } else if str_equals(s, "GenericCommitment") {
            Ok(CommitmentType::Generic)
        } else {
            Err(AltDaError::InvalidCommitmentType)
        }
    }
}

} // verus!
