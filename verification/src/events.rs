//! Decoding of the challenge contract's events and of the calldata that resolves a
//! challenge.

use vstd::prelude::*;
use vstd::string::StringSliceAdditionalSpecFns;
use crate::primitives::{
    be_value, bytes_equal, keccak256, lemma_be_value_append, lemma_be_value_bound, lemma_be_value_push,
    lemma_be_value_zero, lemma_pow256_monotonic, pow256, spec_keccak256,
};

verus! {

/// The name of the challenge contract's status event.
pub const CHALLENGE_STATUS_EVENT_NAME: &'static str = "ChallengeStatusChanged";

/// The signature of the challenge contract's status event.
pub const CHALLENGE_STATUS_EVENT_ABI: &'static str = "ChallengeStatusChanged(uint256,bytes,uint8)";

/// The first topic of every status event: the digest of its signature.
pub open spec fn challenge_event_signature() -> Seq<u8> {
    spec_keccak256(CHALLENGE_STATUS_EVENT_ABI.spec_bytes())
}

/// Computes the first topic of every status event.
pub fn challenge_event_signature_hash() -> (res: Vec<u8>)
    ensures
        res@ == challenge_event_signature(),
        res@.len() == 32,
{
    keccak256(CHALLENGE_STATUS_EVENT_ABI.as_bytes())
}

/// An event emitted by a contract: its address, topics and data.
#[derive(Debug)]
pub struct LogEntry {
    /// The emitting contract.
    pub address: [u8; 20],
    /// The indexed topics.
    pub topics: Vec<[u8; 32]>,
    /// The non-indexed data.
    pub data: Vec<u8>,
}

/// An event together with where the chain holds it.
#[derive(Debug)]
pub struct Log {
    /// The event itself.
    pub inner: LogEntry,
    /// Hash of the block that holds the event.
    pub block_hash: Option<[u8; 32]>,
    /// Number of the block that holds the event.
    pub block_number: Option<u64>,
    /// Timestamp of the block that holds the event.
    pub block_timestamp: Option<u64>,
    /// Hash of the transaction that emitted the event.
    pub transaction_hash: Option<[u8; 32]>,
    /// Position of that transaction in its block.
    pub transaction_index: Option<u64>,
    /// Position of the event in its block.
    pub log_index: Option<u64>,
    /// Whether a reorg removed the event.
    pub removed: bool,
}

/// Why a status event could not be decoded.
#[derive(Debug, Clone, Copy, PartialEq, Eq, Structural)]
pub enum EventDecodeError {
    /// The event does not have exactly three topics.
    InvalidTopicCount,
    /// The first topic is not the status event's signature.
    InvalidSignature,
    /// The data is shorter than one word.
    InvalidDataLength,
}

/// The inputs on which decoding a status event panics: the block number in the third
/// topic does not fit in 64 bits.
pub open spec fn challenge_event_block_number_overflows(log: LogEntry) -> bool {
    &&& log.topics@.len() == 3
    &&& log.topics@[0]@ == challenge_event_signature()
    &&& be_value(log.topics@[2]@) > u64::MAX
}

/// What decoding a status event gives: the challenged commitment (second topic), the
/// block number of the commitment (third topic) and the status (last byte of the first
/// data word).
pub open spec fn spec_decode_challenge_event(log: LogEntry) -> Result<
    (Seq<u8>, u64, u8),
    EventDecodeError,
> {
    if log.topics@.len() != 3 {
        Err(EventDecodeError::InvalidTopicCount)
    } else if log.topics@[0]@ != challenge_event_signature() {
        Err(EventDecodeError::InvalidSignature)
    } else if log.data@.len() < 32 {
        Err(EventDecodeError::InvalidDataLength)
    } else {
        Ok((log.topics@[1]@, be_value(log.topics@[2]@) as u64, log.data@[31]))
    }
}

proof fn lemma_pow256_values()
    ensures
        pow256(7) == 0x100_0000_0000_0000,
        pow256(8) == 0x1_0000_0000_0000_0000,
{
    reveal_with_fuel(pow256, 9);
}

/// Reads a 32-byte big-endian word as a `u64`, or `None` where it is too large.
///
/// This is what converting the word to a 256-bit integer and that integer to `u64` does.
pub fn word_to_u64(word: &[u8; 32]) -> (res: Option<u64>)
    ensures
        match res {
            Some(v) => v == be_value(word@),
            None => be_value(word@) > u64::MAX,
        },
{
    let ghost w = word@;
    assert(w.len() == 32);
    let mut i: usize = 0;
    while i < 24
        invariant
            i <= 24,
            w == word@,
            w.len() == 32,
            forall|j: int| 0 <= j < i ==> w[j] == 0,
        decreases 24 - i,
    {
        if word[i] != 0 {
            proof {
                lemma_be_value_zero(w.take(24));
                assert(w.take(24)[i as int] == w[i as int]);
                assert(w =~= w.take(24) + w.skip(24));
                lemma_be_value_append(w.take(24), w.skip(24));
                lemma_pow256_monotonic(0, 8);
                lemma_pow256_values();
                let a = be_value(w.take(24));
                let p = pow256(8);
                assert(a * p >= p) by (nonlinear_arith)
                    requires
                        a >= 1,
                        p > 0,
                ;
            }
            return None;
        }
        i = i + 1;
    }
    let mut v: u64 = 0;
    while i < 32
        invariant
            24 <= i <= 32,
            w == word@,
            w.len() == 32,
            forall|j: int| 0 <= j < 24 ==> w[j] == 0,
            v == be_value(w.subrange(24, i as int)),
        decreases 32 - i,
    {
        proof {
            lemma_be_value_bound(w.subrange(24, i as int));
            lemma_pow256_monotonic((i - 24) as nat, 7);
            lemma_pow256_values();
            lemma_be_value_push(w.subrange(24, i as int), w[i as int]);
            assert(w.subrange(24, i + 1) =~= w.subrange(24, i as int).push(w[i as int]));
        }
        v = v * 256 + word[i] as u64;
        i = i + 1;
    }
    proof {
        lemma_be_value_zero(w.take(24));
        assert(w =~= w.take(24) + w.subrange(24, 32));
        lemma_be_value_append(w.take(24), w.subrange(24, 32));
    }
    Some(v)
}

/// Decodes a status event into the challenged commitment, the block number at which it
/// was committed, and the new status.
pub fn decode_challenge_status_event(log: &Log) -> (res: Result<(Vec<u8>, u64, u8), EventDecodeError>)
    requires
        !challenge_event_block_number_overflows(log.inner),
    ensures
        match spec_decode_challenge_event(log.inner) {
            Ok((c, n, s)) => res matches Ok((c2, n2, s2)) && c2@ == c && n2 == n && s2 == s,
            Err(e) => res == Err::<(Vec<u8>, u64, u8), EventDecodeError>(e),
        },
{
    decode_challenge_status_entry(&log.inner)
}

/// Decodes the event itself, without where it was found; see
/// `decode_challenge_status_event`.
pub fn decode_challenge_status_entry(log: &LogEntry) -> (res: Result<
    (Vec<u8>, u64, u8),
    EventDecodeError,
>)
    requires
        !challenge_event_block_number_overflows(*log),
    ensures
        match spec_decode_challenge_event(*log) {
            Ok((c, n, s)) => res matches Ok((c2, n2, s2)) && c2@ == c && n2 == n && s2 == s,
            Err(e) => res == Err::<(Vec<u8>, u64, u8), EventDecodeError>(e),
        },
{
    let topics = &log.topics;
    if topics.len() != 3 {
        return Err(EventDecodeError::InvalidTopicCount);
    }
    let signature = challenge_event_signature_hash();
    if !bytes_equal(topics[0].as_slice(), signature.as_slice()) {
        return Err(EventDecodeError::InvalidSignature);
    }
    let commitment = vstd::slice::slice_to_vec(topics[1].as_slice());
    let block_number = match word_to_u64(&topics[2]) {
        Some(n) => n,
        None => {
            proof {
                assert(false);
            }
            0
        },
    };
    if log.data.len() >= 32 {
        let status = log.data[31];
        Ok((commitment, block_number, status))
    } else {
        Err(EventDecodeError::InvalidDataLength)
    }
}

/// Whether decoding this status event would panic: its block number does not fit in 64
/// bits.
pub fn challenge_event_block_number_too_large(log: &LogEntry) -> (res: bool)
    ensures
        res == challenge_event_block_number_overflows(*log),
{
    let topics = &log.topics;
    if topics.len() != 3 {
        return false;
    }
    let signature = challenge_event_signature_hash();
    if !bytes_equal(topics[0].as_slice(), signature.as_slice()) {
        return false;
    }
    word_to_u64(&topics[2]).is_none()
}

/// Decodes a status event where that does not panic; `None` on the inputs on which
/// decoding panics, whose block number does not fit in 64 bits.
pub fn checked_decode_challenge_status_event(log: &Log) -> (res: Option<
    Result<(Vec<u8>, u64, u8), EventDecodeError>,
>)
    ensures
        res is None <==> challenge_event_block_number_overflows(log.inner),
        res matches Some(r) ==> match spec_decode_challenge_event(log.inner) {
            Ok((c, n, s)) => r matches Ok((c2, n2, s2)) && c2@ == c && n2 == n && s2 == s,
            Err(e) => r == Err::<(Vec<u8>, u64, u8), EventDecodeError>(e),
        },
{
    if challenge_event_block_number_too_large(&log.inner) {
        return None;
    }
    Some(decode_challenge_status_event(log))
}

/// The last `min(8, len)` bytes, in order.
pub open spec fn low_bytes(bytes: Seq<u8>) -> Seq<u8> {
    let n = if bytes.len() < 8 { bytes.len() as int } else { 8int };
    bytes.subrange(bytes.len() - n, bytes.len() as int)
}

/// What `u256_from_be_bytes` computes: the big-endian value of the last (up to) eight
/// bytes of a word, which is the word's value where it fits in 64 bits.
pub open spec fn spec_u256_from_be_bytes(bytes: Seq<u8>) -> nat {
    be_value(low_bytes(bytes))
}

/// Reads a big-endian number from the last (up to) eight bytes of a word.
pub fn u256_from_be_bytes(bytes: &[u8]) -> (res: u64)
    ensures
        res == spec_u256_from_be_bytes(bytes@),
{
    let len = bytes.len();
    let n: usize = if len < 8 { len } else { 8 };
    let start = len - n;
    let ghost full = low_bytes(bytes@);
    let mut result: u64 = 0;
    let mut i: usize = 0;
    while i < n
        invariant
            len == bytes@.len(),
            start == len - n,
            n == full.len(),
            full == low_bytes(bytes@),
            n <= 8,
            i <= n,
            result == be_value(full.take(i as int)),
        decreases n - i,
    {
        let byte = bytes[start + i];
        proof {
            assert(full[i as int] == byte);
            lemma_be_value_bound(full.take(i as int));
            lemma_pow256_monotonic(i as nat, 7);
            lemma_pow256_values();
            assert(full.take(i + 1) =~= full.take(i as int).push(byte));
            lemma_be_value_push(full.take(i as int), byte);
            let r = result;
            assert(r < 0x100_0000_0000_0000 ==> ((r << 8u64) | (byte as u64)) == r * 256 + byte)
                by (bit_vector);
        }
        result = (result << 8) | (byte as u64);
        i = i + 1;
    }
    assert(full.take(n as int) =~= full);
    result
}

/// A 32-byte word whose value fits in 64 bits reads as that value: the word is read
/// big-endian.
pub proof fn lemma_u256_from_be_bytes_word(word: Seq<u8>)
    requires
        word.len() == 32,
        forall|i: int| 0 <= i < 24 ==> word[i] == 0,
    ensures
        spec_u256_from_be_bytes(word) == be_value(word),
{
    lemma_be_value_zero(word.take(24));
    assert(word =~= word.take(24) + word.skip(24));
    assert(low_bytes(word) =~= word.skip(24));
    lemma_be_value_append(word.take(24), word.skip(24));
}

/// Why the calldata of a resolving transaction could not be decoded.
#[derive(Debug, Clone, Copy, PartialEq, Eq, Structural)]
pub enum InputDecodeError {
    /// Shorter than a selector and one word.
    InputTooShort,
    /// The offset word points past the end of the arguments.
    InvalidOffset,
    /// The length word reaches past the end of the arguments.
    LengthOutOfBounds,
}

/// The offset word of resolving calldata: the first word after the selector.
pub open spec fn resolved_input_offset(data: Seq<u8>) -> nat {
    spec_u256_from_be_bytes(data.skip(4).take(32))
}

/// The length word of resolving calldata, read at the offset.
pub open spec fn resolved_input_length(data: Seq<u8>) -> nat {
    let off = resolved_input_offset(data) as int;
    spec_u256_from_be_bytes(data.skip(4).subrange(off, off + 32))
}

/// The inputs on which decoding resolving calldata panics: the length word at the offset
/// reaches past the end, or the end of the data it announces overflows `usize`.
pub open spec fn resolved_input_panics(data: Seq<u8>) -> bool {
    let args = data.skip(4);
    let off = resolved_input_offset(data);
    &&& data.len() >= 36
    &&& off < args.len()
    &&& (off + 32 > args.len() || off + 32 + (resolved_input_length(data) as usize) > usize::MAX)
}

/// What decoding resolving calldata gives: after the 4-byte selector, the bytes argument
/// found through the offset word and the length word.
pub open spec fn spec_decode_resolved_input(data: Seq<u8>) -> Result<Seq<u8>, InputDecodeError> {
    let args = data.skip(4);
    let off = resolved_input_offset(data);
    if data.len() < 36 {
        Err(InputDecodeError::InputTooShort)
    } else if off >= args.len() {
        Err(InputDecodeError::InvalidOffset)
    } else {
        let start = off + 32;
        let end = start + (resolved_input_length(data) as usize);
        if end > args.len() {
            Err(InputDecodeError::LengthOutOfBounds)
        } else {
            Ok(args.subrange(start as int, end as int))
        }
    }
}

/// Calldata in the standard ABI form decodes to its payload: after the selector, an
/// offset word of 32, a length word holding the payload's length, then the payload.
pub proof fn lemma_decode_resolved_input_well_formed(data: Seq<u8>, payload: Seq<u8>)
    requires
        data.len() == 68 + payload.len(),
        data.len() <= usize::MAX,
        forall|i: int| 4 <= i < 28 ==> data[i] == 0,
        be_value(data.subrange(4, 36)) == 32,
        forall|i: int| 36 <= i < 60 ==> data[i] == 0,
        be_value(data.subrange(36, 68)) == payload.len(),
        data.skip(68) == payload,
    ensures
        !resolved_input_panics(data),
        spec_decode_resolved_input(data) == Ok::<Seq<u8>, InputDecodeError>(payload),
{
    let args = data.skip(4);
    assert(args.take(32) =~= data.subrange(4, 36));
    lemma_u256_from_be_bytes_word(data.subrange(4, 36));
    assert(resolved_input_offset(data) == 32);
    assert(args.subrange(32, 64) =~= data.subrange(36, 68));
    lemma_u256_from_be_bytes_word(data.subrange(36, 68));
    assert(resolved_input_length(data) == payload.len());
    assert(args.subrange(64, args.len() as int) =~= payload);
}

/// Whether decoding this calldata would panic; see `resolved_input_panics`.
pub fn resolved_input_would_panic(data: &[u8]) -> (res: bool)
    ensures
        res == resolved_input_panics(data@),
{
    if data.len() < 36 {
        return false;
    }
    let input_data = vstd::slice::slice_subrange(data, 4, data.len());
    assert(input_data@ =~= data@.skip(4));
    let offset_word = vstd::slice::slice_subrange(input_data, 0, 32);
    assert(offset_word@ =~= data@.skip(4).take(32));
    let offset = u256_from_be_bytes(offset_word);
    if offset >= input_data.len() as u64 {
        return false;
    }
    let length_start = offset as usize;
    if length_start > input_data.len() - 32 {
        return true;
    }
    let length_word = vstd::slice::slice_subrange(input_data, length_start, length_start + 32);
    let length = u256_from_be_bytes(length_word);
    let data_start = length_start + 32;
    (length as usize) > usize::MAX - data_start
}

/// Decodes the calldata of a transaction that resolves a challenge: a 4-byte selector,
/// then an ABI-encoded `bytes` argument, which is returned. The offset word and the length
/// word are read big-endian (their last eight bytes), so a well-formed argument (offset 32,
/// then its length, then its bytes) decodes to its bytes.
pub fn decode_resolved_input(data: &[u8]) -> (res: Result<Vec<u8>, InputDecodeError>)
    requires
        !resolved_input_panics(data@),
    ensures
        match spec_decode_resolved_input(data@) {
            Ok(v) => res matches Ok(r) && r@ == v,
            Err(e) => res == Err::<Vec<u8>, InputDecodeError>(e),
        },
{
    if data.len() < 36 {
        return Err(InputDecodeError::InputTooShort);
    }
    let input_data = vstd::slice::slice_subrange(data, 4, data.len());
    assert(input_data@ =~= data@.skip(4));
    let offset_word = vstd::slice::slice_subrange(input_data, 0, 32);
    assert(offset_word@ =~= data@.skip(4).take(32));
    let offset = u256_from_be_bytes(offset_word);
    if offset >= input_data.len() as u64 {
        return Err(InputDecodeError::InvalidOffset);
    }
    let length_start = offset as usize;
    let length_word = vstd::slice::slice_subrange(input_data, length_start, length_start + 32);
    let length = u256_from_be_bytes(length_word);
    let data_start = length_start + 32;
    let length_bytes = length as usize;
    if data_start + length_bytes > input_data.len() {
        return Err(InputDecodeError::LengthOutOfBounds);
    }
    let resolved = vstd::slice::slice_subrange(input_data, data_start, data_start + length_bytes);
    Ok(vstd::slice::slice_to_vec(resolved))
}

} // verus!
