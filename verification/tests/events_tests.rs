use kona_altda::events::{
    challenge_event_signature_hash, checked_decode_challenge_status_event,
    decode_challenge_status_event, decode_resolved_input, u256_from_be_bytes, word_to_u64,
    EventDecodeError, InputDecodeError, Log, LogEntry, CHALLENGE_STATUS_EVENT_ABI,
    CHALLENGE_STATUS_EVENT_NAME,
};

fn word(bytes: &[(usize, u8)]) -> [u8; 32] {
    let mut w = [0u8; 32];
    for &(i, b) in bytes {
        w[i] = b;
    }
    w
}

fn log_of(topics: Vec<[u8; 32]>, data: Vec<u8>) -> Log {
    Log {
        inner: LogEntry { address: [0u8; 20], topics, data },
        block_hash: None,
        block_number: None,
        block_timestamp: None,
        transaction_hash: None,
        transaction_index: None,
        log_index: None,
        removed: false,
    }
}

fn signature() -> [u8; 32] {
    let mut s = [0u8; 32];
    s.copy_from_slice(&challenge_event_signature_hash());
    s
}

#[test]
fn event_names() {
    assert_eq!(CHALLENGE_STATUS_EVENT_NAME, "ChallengeStatusChanged");
    assert_eq!(CHALLENGE_STATUS_EVENT_ABI, "ChallengeStatusChanged(uint256,bytes,uint8)");
    assert_eq!(challenge_event_signature_hash().len(), 32);
}

#[test]
fn u256_from_be_bytes_reads_last_eight_bytes_big_endian() {
    assert_eq!(u256_from_be_bytes(&word(&[(31, 0x20)])), 32);
    assert_eq!(u256_from_be_bytes(&word(&[(31, 1)])), 1);
    assert_eq!(u256_from_be_bytes(&word(&[(24, 5)])), 5u64 << 56);
    assert_eq!(u256_from_be_bytes(&word(&[(30, 1), (31, 2)])), 258);
    assert_eq!(u256_from_be_bytes(&word(&[(0, 0xff), (23, 0xff)])), 0);
    assert_eq!(u256_from_be_bytes(&[1, 2]), 0x0102);
    assert_eq!(u256_from_be_bytes(&[1, 2, 3, 4, 5, 6, 7, 8, 9]), 0x0203_0405_0607_0809);
    assert_eq!(u256_from_be_bytes(&[]), 0);
}

#[test]
fn word_to_u64_reads_big_endian() {
    assert_eq!(word_to_u64(&word(&[(30, 1), (31, 2)])), Some(258));
    assert_eq!(word_to_u64(&word(&[(24, 0xff)])), Some(0xff00_0000_0000_0000));
    assert_eq!(word_to_u64(&word(&[(23, 1)])), None);
    assert_eq!(word_to_u64(&word(&[(0, 1)])), None);
}

fn resolve_call(offset: &[(usize, u8)], length: &[(usize, u8)], payload: &[u8]) -> Vec<u8> {
    let mut data = vec![0xde, 0xad, 0xbe, 0xef];
    data.extend_from_slice(&word(offset));
    data.extend_from_slice(&word(length));
    data.extend_from_slice(payload);
    data
}

#[test]
fn decode_resolved_input_cases() {
    assert_eq!(decode_resolved_input(&[0u8; 35]), Err(InputDecodeError::InputTooShort));
    // Selector, offset word 32, length word 3, then the payload.
    let standard = resolve_call(&[(31, 0x20)], &[(31, 3)], &[0x0a, 0x0b, 0x0c]);
    assert_eq!(standard.len(), 71);
    assert_eq!(decode_resolved_input(&standard), Ok(vec![0x0a, 0x0b, 0x0c]));
    // An empty payload.
    let empty = resolve_call(&[(31, 0x20)], &[], &[]);
    assert_eq!(decode_resolved_input(&empty), Ok(vec![]));
    // The offset points past the arguments.
    let far = resolve_call(&[(31, 0xff)], &[(31, 3)], &[1, 2, 3]);
    assert_eq!(decode_resolved_input(&far), Err(InputDecodeError::InvalidOffset));
    // An offset in byte 24 is 0x20 << 56, far past the end.
    let high = resolve_call(&[(24, 0x20)], &[(31, 3)], &[1, 2, 3]);
    assert_eq!(decode_resolved_input(&high), Err(InputDecodeError::InvalidOffset));
    // The length word asks for more bytes than follow it.
    let too_long = resolve_call(&[(31, 0x20)], &[(31, 0x40)], &[1, 2, 3]);
    assert_eq!(decode_resolved_input(&too_long), Err(InputDecodeError::LengthOutOfBounds));
    // Offset 0: the offset word is read again as the length.
    let mut zero = resolve_call(&[], &[], &[]);
    zero.truncate(36);
    assert_eq!(decode_resolved_input(&zero), Ok(vec![]));
}

#[test]
fn decode_challenge_status_event_cases() {
    let sig = signature();
    let mut status_word = vec![0u8; 32];
    status_word[31] = 1;
    let bad_count = log_of(vec![sig, word(&[])], status_word.clone());
    assert_eq!(
        decode_challenge_status_event(&bad_count).unwrap_err(),
        EventDecodeError::InvalidTopicCount
    );
    let bad_sig = log_of(vec![word(&[]), word(&[]), word(&[])], status_word.clone());
    assert_eq!(
        decode_challenge_status_event(&bad_sig).unwrap_err(),
        EventDecodeError::InvalidSignature
    );
    let short = log_of(vec![sig, word(&[]), word(&[])], vec![1u8; 31]);
    assert_eq!(
        decode_challenge_status_event(&short).unwrap_err(),
        EventDecodeError::InvalidDataLength
    );
    let good = log_of(vec![sig, word(&[(0, 1), (1, 0xaa)]), word(&[(31, 42)])], status_word);
    let (comm, number, status) = decode_challenge_status_event(&good).unwrap();
    assert_eq!(comm, word(&[(0, 1), (1, 0xaa)]).to_vec());
    assert_eq!(number, 42);
    assert_eq!(status, 1);
}

#[test]
fn checked_decode_refuses_oversized_block_numbers() {
    let sig = signature();
    let big = log_of(vec![sig, word(&[]), word(&[(0, 1)])], vec![0u8; 32]);
    assert!(checked_decode_challenge_status_event(&big).is_none());
    let not_ours = log_of(vec![word(&[]), word(&[]), word(&[(0, 1)])], vec![0u8; 32]);
    assert_eq!(
        checked_decode_challenge_status_event(&not_ours).unwrap().unwrap_err(),
        EventDecodeError::InvalidSignature
    );
}
