use kona_altda::commitment::{new_commitment_data, CommitmentData, GenericCommitment};
use kona_altda::da_client::DAClient;
use kona_altda::oracle::{
    celestia_preimage_hash, celestia_preimage_input, commitment_preimage_hash, u64_to_be_bytes,
};
use kona_altda::types::{AltDaError, CommitmentType};

fn generic(bytes: &[u8]) -> CommitmentData {
    CommitmentData::Generic(GenericCommitment::new(bytes))
}

#[test]
fn client_urls() {
    let c = DAClient::new("http://da:3100".to_string(), true, false);
    assert_eq!(c.get_url(&generic(&[0xab])), "http://da:3100/get/0x01ab");
    assert_eq!(c.put_url(), "http://da:3100/put/");
    assert_eq!(c.put_url_with_commit(&generic(&[0x0f])), "http://da:3100/put/0x010f");
}

#[test]
fn client_checks_inputs() {
    assert_eq!(DAClient::check_input(&[]), Err(AltDaError::InvalidInput));
    assert_eq!(DAClient::check_input(&[1]), Ok(()));
    assert_eq!(DAClient::put_with_commit_reply(200), Ok(()));
    assert_eq!(DAClient::put_with_commit_reply(500), Err(AltDaError::FailedToGetPreimage));
}

#[test]
fn client_get_replies() {
    let verifying = DAClient::new("u".to_string(), true, false);
    let trusting = DAClient::new("u".to_string(), false, false);
    let key = new_commitment_data(CommitmentType::Keccak256, b"data");
    assert_eq!(verifying.get_input_reply(&key, 404, None), Err(AltDaError::NotFound));
    assert_eq!(verifying.get_input_reply(&key, 500, None), Err(AltDaError::FailedToGetPreimage));
    assert_eq!(verifying.get_input_reply(&key, 200, None), Err(AltDaError::FailedToGetPreimage));
    assert_eq!(verifying.get_input_reply(&key, 200, Some(b"data".to_vec())), Ok(b"data".to_vec()));
    assert_eq!(
        verifying.get_input_reply(&key, 200, Some(b"nope".to_vec())),
        Err(AltDaError::CommitmentMismatch)
    );
    assert_eq!(trusting.get_input_reply(&key, 200, Some(b"nope".to_vec())), Ok(b"nope".to_vec()));
}

#[test]
fn client_set_replies() {
    let server = DAClient::new("u".to_string(), false, false);
    let local = DAClient::new("u".to_string(), false, true);
    assert_eq!(
        server.set_input_reply(b"img", 500, Some(vec![])).unwrap_err(),
        AltDaError::FailedToGetPreimage
    );
    assert_eq!(server.set_input_reply(b"img", 200, None).unwrap_err(), AltDaError::FailedToGetPreimage);
    let c = server.set_input_reply(b"img", 200, Some(vec![1, 9])).unwrap();
    assert_eq!(c.encode(), vec![1, 9]);
    assert_eq!(
        server.set_input_reply(b"img", 200, Some(vec![7])).unwrap_err(),
        AltDaError::InvalidCommitment
    );
    let c = local.set_input_reply(b"img", 200, Some(vec![7])).unwrap();
    assert_eq!(c.encode(), new_commitment_data(CommitmentType::Keccak256, b"img").encode());
}

#[test]
fn oracle_keys() {
    assert_eq!(u64_to_be_bytes(0x0102030405060708), vec![1, 2, 3, 4, 5, 6, 7, 8]);
    let input = celestia_preimage_input(258, &[9u8; 32]);
    assert_eq!(&input[..8], &[0, 0, 0, 0, 0, 0, 1, 2]);
    assert_eq!(&input[8..], &[9u8; 32][..]);
    let h = celestia_preimage_hash(258, &[9u8; 32]);
    assert_eq!(h.len(), 32);
    assert_ne!(h, input[..32].to_vec());
    let k = commitment_preimage_hash(&generic(&[]));
    assert_eq!(k.len(), 32);
    assert_ne!(commitment_preimage_hash(&generic(&[1])), k);
}
