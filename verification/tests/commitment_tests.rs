use kona_altda::commitment::{
    decode_commitment_data, new_commitment_data, CommitmentData, GenericCommitment,
    Keccak256Commitment,
};
use kona_altda::types::{AltDaError, CommitmentType};

const KECCAK_EMPTY: [u8; 32] = [
    0xc5, 0xd2, 0x46, 0x01, 0x86, 0xf7, 0x23, 0x3c, 0x92, 0x7e, 0x7d, 0xb2, 0xdc, 0xc7, 0x03, 0xc0,
    0xe5, 0x00, 0xb6, 0x53, 0xca, 0x82, 0x27, 0x3b, 0x7b, 0xfa, 0xd8, 0x04, 0x5d, 0x85, 0xa4, 0x70,
];

#[test]
fn keccak_commitment_of_empty_input_is_known_digest() {
    let c = Keccak256Commitment::new(&[]);
    assert_eq!(c.as_bytes(), &KECCAK_EMPTY[..]);
}

#[test]
fn keccak_commitment_depends_on_input() {
    let a = Keccak256Commitment::new(b"hello");
    let b = Keccak256Commitment::new(b"world");
    assert_eq!(a.as_bytes().len(), 32);
    assert_ne!(a.as_bytes(), b.as_bytes());
    assert_ne!(a.as_bytes(), &b"hello"[..]);
}

#[test]
fn keccak_decode_requires_32_bytes() {
    assert!(matches!(Keccak256Commitment::decode(&[]), Err(AltDaError::InvalidCommitment)));
    assert!(matches!(Keccak256Commitment::decode(&[7u8; 31]), Err(AltDaError::InvalidCommitment)));
    assert!(matches!(Keccak256Commitment::decode(&[7u8; 33]), Err(AltDaError::InvalidCommitment)));
    let c = Keccak256Commitment::decode(&[7u8; 32]).unwrap();
    assert_eq!(c.as_bytes(), &[7u8; 32][..]);
}

#[test]
fn generic_decode_rejects_empty() {
    assert!(matches!(GenericCommitment::decode(&[]), Err(AltDaError::InvalidCommitment)));
    let c = GenericCommitment::decode(&[9]).unwrap();
    assert_eq!(c.as_bytes(), &[9u8][..]);
    assert_eq!(GenericCommitment::new(&[1, 2, 3]).as_bytes(), &[1u8, 2, 3][..]);
}

#[test]
fn encode_and_tx_data_prefix_kind_and_version() {
    let g = CommitmentData::Generic(GenericCommitment::new(&[0xab, 0xcd]));
    assert_eq!(g.encode(), vec![1, 0xab, 0xcd]);
    assert_eq!(g.tx_data(), vec![1, 1, 0xab, 0xcd]);
    assert_eq!(g.commitment_type(), CommitmentType::Generic);
    let k = CommitmentData::Keccak256(Keccak256Commitment::decode(&[5u8; 32]).unwrap());
    let mut expected = vec![0u8];
    expected.extend_from_slice(&[5u8; 32]);
    assert_eq!(k.encode(), expected);
    let mut expected_tx = vec![1u8, 0u8];
    expected_tx.extend_from_slice(&[5u8; 32]);
    assert_eq!(k.tx_data(), expected_tx);
    assert_eq!(k.commitment_type(), CommitmentType::Keccak256);
}

#[test]
fn decode_commitment_data_by_kind_byte() {
    assert!(matches!(decode_commitment_data(&[]), Err(AltDaError::InvalidCommitment)));
    assert!(matches!(decode_commitment_data(&[1]), Err(AltDaError::InvalidCommitment)));
    assert!(matches!(decode_commitment_data(&[0, 1, 2]), Err(AltDaError::InvalidCommitment)));
    assert!(matches!(decode_commitment_data(&[2, 1, 2]), Err(AltDaError::InvalidCommitment)));
    match decode_commitment_data(&[1, 4, 5]).unwrap() {
        CommitmentData::Generic(g) => assert_eq!(g.as_bytes(), &[4u8, 5][..]),
        _ => panic!("expected a generic commitment"),
    }
    let mut k = vec![0u8];
    k.extend_from_slice(&[3u8; 32]);
    match decode_commitment_data(&k).unwrap() {
        CommitmentData::Keccak256(c) => assert_eq!(c.as_bytes(), &[3u8; 32][..]),
        _ => panic!("expected a keccak commitment"),
    }
}

#[test]
fn encode_then_decode_gives_back_the_commitment() {
    let k = new_commitment_data(CommitmentType::Keccak256, b"some input");
    let back = decode_commitment_data(&k.encode()).unwrap();
    assert_eq!(back.encode(), k.encode());
    let g = new_commitment_data(CommitmentType::Generic, b"xy");
    let back = decode_commitment_data(&g.encode()).unwrap();
    assert_eq!(back.payload(), &b"xy"[..]);
    assert_eq!(back.commitment_type(), CommitmentType::Generic);
}

#[test]
fn empty_generic_commitment_does_not_decode_back() {
    let g = new_commitment_data(CommitmentType::Generic, &[]);
    assert_eq!(g.encode(), vec![1]);
    assert!(decode_commitment_data(&g.encode()).is_err());
}

#[test]
fn keccak_commitment_verifies_its_input_only() {
    let k = new_commitment_data(CommitmentType::Keccak256, b"payload");
    assert!(k.verify(b"payload").is_ok());
    assert!(matches!(k.verify(b"other"), Err(AltDaError::CommitmentMismatch)));
    let g = new_commitment_data(CommitmentType::Generic, b"payload");
    assert!(g.verify(b"anything").is_ok());
}

#[test]
fn to_string_is_hex_of_encoding() {
    let g = CommitmentData::Generic(GenericCommitment::new(&[0xab, 0x01]));
    assert_eq!(g.to_string(), "01ab01");
    let k = CommitmentData::Keccak256(Keccak256Commitment::new(&[]));
    assert_eq!(
        k.to_string(),
        "00c5d2460186f7233c927e7db2dcc703c0e500b653ca82273b7bfad8045d85a470"
    );
}

#[test]
fn clone_keeps_payload() {
    let k = new_commitment_data(CommitmentType::Keccak256, b"z");
    let c = k.clone();
    assert_eq!(c.encode(), k.encode());
}

#[test]
fn commitment_type_from_string() {
    assert_eq!(CommitmentType::from_string("KeccakCommitment"), Ok(CommitmentType::Keccak256));
    assert_eq!(CommitmentType::from_string("GenericCommitment"), Ok(CommitmentType::Generic));
    assert_eq!(
        CommitmentType::from_string("keccakcommitment"),
        Err(AltDaError::InvalidCommitmentType)
    );
    assert_eq!(CommitmentType::from_string(""), Err(AltDaError::InvalidCommitmentType));
    assert_eq!(CommitmentType::Keccak256.to_byte(), 0);
    assert_eq!(CommitmentType::Generic.to_byte(), 1);
}

#[test]
fn error_messages() {
    assert_eq!(AltDaError::ReorgRequired.message(), "reorg required");
    assert_eq!(AltDaError::CommitmentMismatch.message(), "commitment mistmatch");
    assert_eq!(AltDaError::DecodeError.message(), "could not decode challenge event");
    assert_eq!(AltDaError::UnknownStatus.message(), "unknown challenge status");
    assert_eq!(AltDaError::NotFound.message(), "not found");
}
