use kona_altda::commitment::{new_commitment_data, CommitmentData};
use kona_altda::state::{
    challenge_key, Challenge, ChallengeMap, ChallengeStatus, Commitment, State,
};
use kona_altda::types::{AltDaError, BlockInfo, BlockNumHash, CommitmentType, InputFetcherConfig};

fn cfg() -> InputFetcherConfig {
    InputFetcherConfig {
        da_challenge_contract: [0x11; 20],
        commitment_type: CommitmentType::Keccak256,
        challenge_window: 10,
        resolve_window: 5,
    }
}

fn block(number: u64) -> BlockInfo {
    BlockInfo { hash: [number as u8; 32], number, parent_hash: [0; 32], timestamp: number * 12 }
}

fn id(number: u64) -> BlockNumHash {
    BlockNumHash { hash: [number as u8; 32], number }
}

fn comm(tag: &[u8]) -> CommitmentData {
    new_commitment_data(CommitmentType::Generic, tag)
}

fn challenge(tag: &[u8], number: u64, end: u64, status: ChallengeStatus) -> Challenge {
    Challenge {
        commitment_data: comm(tag),
        commitment_inclusion_block_number: number,
        resolve_window_end: end,
        input: None,
        challenge_status: status,
    }
}

#[test]
fn new_state_is_empty() {
    let s = State::new(cfg());
    assert!(s.no_commitments());
    assert_eq!(s.challenges_map.len(), 0);
    assert!(s.last_pruned_commitment.is_none());
}

#[test]
fn track_commitment_sets_window_end() {
    let mut s = State::new(cfg());
    s.track_commitment(comm(b"a"), block(7));
    assert_eq!(s.commitments.len(), 1);
    assert_eq!(s.commitments[0].challenge_window_end, 17);
    assert!(!s.no_commitments());
}

#[test]
fn keys_use_decimal_for_storage_and_hex_for_lookup() {
    let c = challenge(&[0xab], 26, 0, ChallengeStatus::Active);
    assert_eq!(c.key(), "2601ab");
    assert_eq!(challenge_key(&comm(&[0xab]), 26), "000000000000001a01ab");
}

#[test]
fn keys_format_block_numbers_like_std() {
    for n in [0u64, 9, 10, 1_234_567_890, u64::MAX] {
        let c = challenge(&[0xab], n, 0, ChallengeStatus::Active);
        assert_eq!(c.key(), format!("{}01ab", n));
        assert_eq!(challenge_key(&comm(&[0xab]), n), format!("{:016x}01ab", n));
    }
}

#[test]
fn created_challenge_is_stored_under_its_storage_key() {
    let mut s = State::new(cfg());
    s.create_challenge(comm(&[0xab]), id(100), 26);
    assert_eq!(s.challenges.len(), 1);
    assert_eq!(s.challenges[0].resolve_window_end, 105);
    assert_eq!(s.challenges[0].challenge_status, ChallengeStatus::Active);
    assert_eq!(s.challenges_map.len(), 1);
    let stored = s.challenges_map.get(&"2601ab".to_string()).unwrap();
    assert_eq!(stored.resolve_window_end, 105);
    // Lookups go by the hex key, which differs from the storage key.
    assert_eq!(s.get_challenge_status(&comm(&[0xab]), 26), ChallengeStatus::Uninitialized);
    assert!(s.get_challenge(&comm(&[0xab]), 26).is_none());
}

#[test]
fn resolving_an_unknown_challenge_is_not_found() {
    let mut s = State::new(cfg());
    s.create_challenge(comm(&[0xab]), id(100), 26);
    assert_eq!(
        s.resolve_challenge(&comm(&[0xab]), 26, vec![1, 2]),
        Err(AltDaError::NotFound)
    );
}

#[test]
fn resolving_a_challenge_found_by_lookup_key() {
    let mut s = State::new(cfg());
    let key = challenge_key(&comm(&[0xab]), 26);
    s.challenges_map.insert(key, challenge(&[0xab], 26, 40, ChallengeStatus::Active));
    assert_eq!(s.get_challenge_status(&comm(&[0xab]), 26), ChallengeStatus::Active);
    assert_eq!(s.resolve_challenge(&comm(&[0xab]), 26, vec![9]), Ok(()));
    assert_eq!(s.get_challenge_status(&comm(&[0xab]), 26), ChallengeStatus::Resolved);
    assert_eq!(s.get_challenge(&comm(&[0xab]), 26).unwrap().input, Some(vec![9]));
}

#[test]
fn challenge_map_insert_replaces_and_remove_drops() {
    let mut m = ChallengeMap::new();
    m.insert("k".to_string(), challenge(b"a", 1, 2, ChallengeStatus::Active));
    m.insert("k".to_string(), challenge(b"b", 3, 4, ChallengeStatus::Active));
    assert_eq!(m.len(), 1);
    assert_eq!(m.get(&"k".to_string()).unwrap().resolve_window_end, 4);
    assert!(m.resolve(&"k".to_string(), vec![5]));
    assert!(!m.resolve(&"x".to_string(), vec![5]));
    m.remove(&"k".to_string());
    assert_eq!(m.len(), 0);
    m.insert("z".to_string(), challenge(b"a", 1, 2, ChallengeStatus::Active));
    m.clear();
    assert!(m.get(&"z".to_string()).is_none());
}

#[test]
fn expire_challenges_moves_leading_and_marks_open_ones_expired() {
    let mut s = State::new(cfg());
    s.challenges.push(challenge(b"a", 1, 10, ChallengeStatus::Active));
    s.challenges.push(challenge(b"b", 2, 12, ChallengeStatus::Resolved));
    s.challenges.push(challenge(b"c", 3, 30, ChallengeStatus::Active));
    s.challenges.push(challenge(b"d", 4, 11, ChallengeStatus::Active));
    s.expire_challenges(id(20));
    assert_eq!(s.challenges.len(), 2);
    assert_eq!(s.challenges[0].resolve_window_end, 30);
    assert_eq!(s.expired_challenges.len(), 2);
    assert_eq!(s.expired_challenges[0].challenge_status, ChallengeStatus::Expired);
    assert_eq!(s.expired_challenges[1].challenge_status, ChallengeStatus::Resolved);
    // Expiring again at the same origin moves nothing.
    s.expire_challenges(id(20));
    assert_eq!(s.challenges.len(), 2);
    assert_eq!(s.expired_challenges.len(), 2);
}

#[test]
fn expire_commitments_moves_prefix_in_reverse_order() {
    let mut s = State::new(cfg());
    s.track_commitment(comm(b"a"), block(1));
    s.track_commitment(comm(b"b"), block(2));
    s.track_commitment(comm(b"c"), block(20));
    assert_eq!(s.expire_commitments(id(15)), Ok(()));
    assert_eq!(s.commitments.len(), 1);
    assert_eq!(s.commitments[0].inclusion_block.number, 20);
    assert_eq!(s.expired_commitments.len(), 2);
    assert_eq!(s.expired_commitments[0].inclusion_block.number, 2);
    assert_eq!(s.expired_commitments[1].inclusion_block.number, 1);
}

#[test]
fn expire_commitments_with_open_challenge_requires_reorg() {
    let mut s = State::new(cfg());
    s.track_commitment(comm(b"a"), block(1));
    let key = challenge_key(&comm(b"a"), 1);
    s.challenges_map.insert(key, challenge(b"a", 1, 5, ChallengeStatus::Active));
    assert_eq!(s.expire_commitments(id(6)), Err(AltDaError::ReorgRequired));
    assert_eq!(s.commitments.len(), 0);
    assert_eq!(s.expired_commitments.len(), 1);
}

#[test]
fn expire_commitments_waits_for_challenge_resolve_window() {
    let mut s = State::new(cfg());
    s.track_commitment(comm(b"a"), block(1));
    let key = challenge_key(&comm(b"a"), 1);
    s.challenges_map.insert(key, challenge(b"a", 1, 50, ChallengeStatus::Resolved));
    assert_eq!(s.expire_commitments(id(20)), Ok(()));
    assert_eq!(s.commitments.len(), 1);
    assert_eq!(s.expire_commitments(id(50)), Ok(()));
    assert_eq!(s.commitments.len(), 0);
}

#[test]
fn prune_drops_final_commitments_and_challenges() {
    let mut s = State::new(cfg());
    s.expired_commitments.push(Commitment {
        data: comm(b"a"),
        inclusion_block: block(1),
        challenge_window_end: 11,
    });
    s.expired_commitments.push(Commitment {
        data: comm(b"b"),
        inclusion_block: block(3),
        challenge_window_end: 13,
    });
    s.expired_commitments.push(Commitment {
        data: comm(b"c"),
        inclusion_block: block(9),
        challenge_window_end: 19,
    });
    let ch = challenge(&[0xab], 26, 12, ChallengeStatus::Expired);
    let key = ch.key();
    s.challenges_map.insert(key, challenge(&[0xab], 26, 12, ChallengeStatus::Expired));
    s.expired_challenges.push(ch);
    s.prune(id(14));
    assert_eq!(s.expired_commitments.len(), 1);
    assert_eq!(s.last_pruned_commitment.unwrap().number, 3);
    assert_eq!(s.expired_challenges.len(), 0);
    assert_eq!(s.challenges_map.len(), 0);
}

#[test]
fn reset_and_clear_commitments() {
    let mut s = State::new(cfg());
    s.track_commitment(comm(b"a"), block(1));
    s.create_challenge(comm(b"a"), id(1), 1);
    s.clear_commitments();
    assert_eq!(s.commitments.len(), 0);
    assert_eq!(s.challenges.len(), 1);
    s.reset();
    assert!(s.no_commitments());
    assert_eq!(s.challenges_map.len(), 0);
}

#[test]
fn prune_twice_prunes_no_more_challenges() {
    let mut s = State::new(cfg());
    s.expired_challenges.push(challenge(b"a", 1, 5, ChallengeStatus::Expired));
    s.expired_challenges.push(challenge(b"b", 2, 9, ChallengeStatus::Expired));
    s.prune(id(6));
    assert_eq!(s.expired_challenges.len(), 1);
    s.prune(id(6));
    assert_eq!(s.expired_challenges.len(), 1);
}

#[test]
fn expire_commitments_keeps_every_commitment() {
    let mut s = State::new(cfg());
    for n in [1u64, 2, 3, 30] {
        s.track_commitment(comm(&[n as u8]), block(n));
    }
    assert_eq!(s.expire_commitments(id(13)), Ok(()));
    assert_eq!(s.commitments.len() + s.expired_commitments.len(), 4);
    let mut numbers: Vec<u64> = s
        .commitments
        .iter()
        .chain(s.expired_commitments.iter())
        .map(|c| c.inclusion_block.number)
        .collect();
    numbers.sort();
    assert_eq!(numbers, vec![1, 2, 3, 30]);
}

#[test]
fn cloned_state_has_same_content() {
    let mut s = State::new(cfg());
    s.track_commitment(comm(b"a"), block(1));
    s.create_challenge(comm(b"b"), id(2), 2);
    let c = s.clone();
    assert_eq!(c.commitments.len(), 1);
    assert_eq!(c.commitments[0].data.encode(), comm(b"a").encode());
    assert_eq!(c.challenges.len(), 1);
    assert_eq!(c.challenges_map.len(), 1);
    let copy = c.commitments[0].clone();
    assert_eq!(copy.challenge_window_end, 11);
}
