use kona_altda::commitment::new_commitment_data;
use kona_altda::events::{challenge_event_signature_hash, LogEntry};
use kona_altda::provider::{
    decode_challenge_status, fetch_challenge_logs, status_from_byte, AltDAProvider, InputAction,
    L1BlockData, L1Transaction, Receipt,
};
use kona_altda::state::{challenge_key, Challenge, ChallengeStatus};
use kona_altda::types::{AltDaError, BlockInfo, BlockNumHash, CommitmentType, InputFetcherConfig};

const CONTRACT: [u8; 20] = [0x22; 20];

fn cfg(kind: CommitmentType) -> InputFetcherConfig {
    InputFetcherConfig {
        da_challenge_contract: CONTRACT,
        commitment_type: kind,
        challenge_window: 10,
        resolve_window: 5,
    }
}

fn block(number: u64) -> BlockInfo {
    BlockInfo { hash: [number as u8; 32], number, parent_hash: [0; 32], timestamp: number * 12 }
}

fn id(number: u64) -> BlockNumHash {
    BlockNumHash { hash: [number as u8; 32], number }
}

fn signature() -> [u8; 32] {
    let mut s = [0u8; 32];
    s.copy_from_slice(&challenge_event_signature_hash());
    s
}

fn status_event(address: [u8; 20], commitment: [u8; 32], number: u64, status: u8) -> LogEntry {
    let mut n = [0u8; 32];
    n[24..].copy_from_slice(&number.to_be_bytes());
    let mut data = vec![0u8; 32];
    data[31] = status;
    LogEntry { address, topics: vec![signature(), commitment, n], data }
}

fn generic_topic() -> [u8; 32] {
    let mut c = [0x33u8; 32];
    c[0] = 1;
    c
}

fn chain_data(n_txs: usize) -> L1BlockData {
    let mut transactions = Vec::new();
    for i in 0..n_txs {
        transactions.push(L1Transaction { hash: [i as u8 + 1; 32], input: vec![] });
    }
    L1BlockData { info: block(30), transactions }
}

#[test]
fn status_bytes() {
    assert_eq!(status_from_byte(0), Some(ChallengeStatus::Uninitialized));
    assert_eq!(status_from_byte(1), Some(ChallengeStatus::Active));
    assert_eq!(status_from_byte(2), Some(ChallengeStatus::Resolved));
    assert_eq!(status_from_byte(3), Some(ChallengeStatus::Expired));
    assert_eq!(status_from_byte(4), None);
}

#[test]
fn new_provider_starts_at_zero() {
    let p = AltDAProvider::new_alt_da(cfg(CommitmentType::Keccak256));
    assert_eq!(p.challenge_origin.number, 0);
    assert_eq!(p.commitment_origin.number, 0);
    assert_eq!(p.finalized_head.number, 0);
    assert!(!p.resetting);
    assert!(p.state.no_commitments());
}

#[test]
fn fetch_challenge_logs_filters_by_contract_and_signature() {
    let p = AltDAProvider::new_alt_da(cfg(CommitmentType::Keccak256));
    let ours = status_event(CONTRACT, generic_topic(), 7, 1);
    let other_contract = status_event([0x99; 20], generic_topic(), 7, 1);
    let mut other_sig = status_event(CONTRACT, generic_topic(), 7, 1);
    other_sig.topics[0] = [0u8; 32];
    let receipts = vec![
        Receipt { logs: vec![other_contract, ours] },
        Receipt { logs: vec![other_sig] },
        Receipt { logs: vec![status_event(CONTRACT, generic_topic(), 8, 1)] },
    ];
    // Only two transactions: the third receipt has none beside it.
    let data = chain_data(2);
    let logs = fetch_challenge_logs(&p.cfg, id(30), Some(receipts), &Some(data)).unwrap();
    assert_eq!(logs.len(), 1);
    assert_eq!(logs[0].transaction_index, Some(0));
    assert_eq!(logs[0].log_index, Some(1));
    assert_eq!(logs[0].transaction_hash, Some([1u8; 32]));
    assert_eq!(logs[0].block_number, Some(30));
    assert_eq!(logs[0].block_hash, Some([30u8; 32]));
}

#[test]
fn fetch_challenge_logs_under_generic_config_is_empty() {
    let p = AltDAProvider::new_alt_da(cfg(CommitmentType::Generic));
    let receipts = vec![Receipt { logs: vec![status_event(CONTRACT, generic_topic(), 7, 1)] }];
    let logs = fetch_challenge_logs(&p.cfg, id(30), Some(receipts), &Some(chain_data(1)));
    assert_eq!(logs.unwrap().len(), 0);
    assert_eq!(fetch_challenge_logs(&p.cfg, id(30), None, &None).unwrap().len(), 0);
}

#[test]
fn fetch_challenge_logs_missing_chain_data_is_network_error() {
    let p = AltDAProvider::new_alt_da(cfg(CommitmentType::Keccak256));
    let receipts = vec![Receipt { logs: vec![status_event(CONTRACT, generic_topic(), 7, 1)] }];
    assert_eq!(
        fetch_challenge_logs(&p.cfg, id(30), Some(receipts), &None).unwrap_err(),
        AltDaError::NetworkError
    );
    assert_eq!(
        fetch_challenge_logs(&p.cfg, id(30), None, &Some(chain_data(1))).unwrap_err(),
        AltDaError::NetworkError
    );
}

#[test]
fn needs_chain_data_only_past_origin_under_keccak() {
    let keccak = AltDAProvider::new_alt_da(cfg(CommitmentType::Keccak256));
    assert!(keccak.needs_chain_data(id(1)));
    assert!(!keccak.needs_chain_data(id(0)));
    let generic = AltDAProvider::new_alt_da(cfg(CommitmentType::Generic));
    assert!(!generic.needs_chain_data(id(1)));
}

#[test]
fn decode_challenge_status_maps_errors() {
    let p = AltDAProvider::new_alt_da(cfg(CommitmentType::Keccak256));
    let data = Some(chain_data(1));
    let ok = fetch_challenge_logs(
        &p.cfg,
        id(30),
        Some(vec![Receipt { logs: vec![status_event(CONTRACT, generic_topic(), 7, 1)] }]),
        &data,
    )
    .unwrap();
    let (status, comm, number) = decode_challenge_status(&ok[0]).unwrap();
    assert_eq!(status, ChallengeStatus::Active);
    assert_eq!(comm.commitment_type(), CommitmentType::Generic);
    assert_eq!(number, 7);
    // A keccak kind byte followed by 31 bytes is not a commitment.
    let bad = fetch_challenge_logs(
        &p.cfg,
        id(30),
        Some(vec![Receipt { logs: vec![status_event(CONTRACT, [0u8; 32], 7, 1)] }]),
        &data,
    )
    .unwrap();
    assert_eq!(decode_challenge_status(&bad[0]).unwrap_err(), AltDaError::InvalidCommitment);
    let unknown = fetch_challenge_logs(
        &p.cfg,
        id(30),
        Some(vec![Receipt { logs: vec![status_event(CONTRACT, generic_topic(), 7, 9)] }]),
        &data,
    )
    .unwrap();
    assert_eq!(decode_challenge_status(&unknown[0]).unwrap_err(), AltDaError::UnknownStatus);
}

#[test]
fn advance_challenge_origin_creates_challenges_from_events() {
    let mut p = AltDAProvider::new_alt_da(cfg(CommitmentType::Keccak256));
    let receipts = vec![Receipt { logs: vec![status_event(CONTRACT, generic_topic(), 7, 1)] }];
    assert!(!p.advance_challenge_origin_would_panic(id(30), &Some(receipts), &Some(chain_data(1))));
    let receipts = vec![Receipt { logs: vec![status_event(CONTRACT, generic_topic(), 7, 1)] }];
    assert_eq!(p.advance_challenge_origin(id(30), Some(receipts), Some(chain_data(1))), Ok(()));
    assert_eq!(p.challenge_origin.number, 30);
    assert_eq!(p.state.challenges.len(), 1);
    assert_eq!(p.state.challenges[0].resolve_window_end, 35);
    assert_eq!(p.state.challenges[0].commitment_inclusion_block_number, 7);
    assert_eq!(p.state.challenges_map.len(), 1);
    // Not past the origin: nothing happens.
    assert_eq!(p.advance_challenge_origin(id(20), None, None), Ok(()));
    assert_eq!(p.challenge_origin.number, 30);
    // Past the origin, the open challenge expires.
    assert_eq!(p.advance_challenge_origin(id(40), Some(vec![]), Some(chain_data(0))), Ok(()));
    assert_eq!(p.state.challenges.len(), 0);
    assert_eq!(p.state.expired_challenges.len(), 1);
    assert_eq!(p.state.expired_challenges[0].challenge_status, ChallengeStatus::Expired);
}

#[test]
fn advance_challenge_origin_without_chain_data_is_a_network_error() {
    let mut p = AltDAProvider::new_alt_da(cfg(CommitmentType::Keccak256));
    assert_eq!(
        p.advance_challenge_origin(id(30), None, Some(chain_data(0))),
        Err(AltDaError::NetworkError)
    );
    assert_eq!(p.advance_challenge_origin(id(30), Some(vec![]), None), Err(AltDaError::NetworkError));
    assert_eq!(p.challenge_origin.number, 0);
    let mut g = AltDAProvider::new_alt_da(cfg(CommitmentType::Generic));
    assert_eq!(g.advance_challenge_origin(id(30), None, None), Ok(()));
    assert_eq!(g.challenge_origin.number, 30);
}

#[test]
fn checked_advance_refuses_oversized_block_number() {
    let mut p = AltDAProvider::new_alt_da(cfg(CommitmentType::Keccak256));
    let mut big = status_event(CONTRACT, generic_topic(), 7, 1);
    big.topics[2] = [0xff; 32];
    let receipts = vec![Receipt { logs: vec![big] }];
    assert!(p.advance_challenge_origin_would_panic(id(30), &Some(receipts), &Some(chain_data(1))));
    let mut big = status_event(CONTRACT, generic_topic(), 7, 1);
    big.topics[2] = [0xff; 32];
    let receipts = vec![Receipt { logs: vec![big] }];
    assert!(p.checked_advance_challenge_origin(id(30), Some(receipts), Some(chain_data(1))).is_none());
    assert_eq!(p.challenge_origin.number, 0);
}

#[test]
fn resolving_event_with_generic_configuration_loads_nothing() {
    let mut p = AltDAProvider::new_alt_da(cfg(CommitmentType::Generic));
    let receipts = vec![Receipt { logs: vec![status_event(CONTRACT, generic_topic(), 7, 2)] }];
    assert_eq!(p.advance_challenge_origin(id(30), Some(receipts), Some(chain_data(1))), Ok(()));
    assert_eq!(p.state.challenges.len(), 0);
}

#[test]
fn advance_commitment_origin_expires_and_moves() {
    let mut p = AltDAProvider::new_alt_da(cfg(CommitmentType::Generic));
    let c = new_commitment_data(CommitmentType::Generic, b"a");
    assert_eq!(p.get_input_track(&c, Some(block(3))), Ok(()));
    assert_eq!(p.advance_commitment_origin(id(13)), Ok(()));
    assert_eq!(p.commitment_origin.number, 13);
    assert_eq!(p.state.expired_commitments.len(), 1);
    assert_eq!(p.advance_commitment_origin(id(5)), Ok(()));
    assert_eq!(p.commitment_origin.number, 13);
}

#[test]
fn advance_commitment_origin_marks_resetting_on_reorg() {
    let mut p = AltDAProvider::new_alt_da(cfg(CommitmentType::Generic));
    let c = new_commitment_data(CommitmentType::Generic, b"a");
    assert_eq!(p.get_input_track(&c, Some(block(3))), Ok(()));
    let key = challenge_key(&c, 3);
    p.state.challenges_map.insert(
        key,
        Challenge {
            commitment_data: c.clone(),
            commitment_inclusion_block_number: 3,
            resolve_window_end: 8,
            input: None,
            challenge_status: ChallengeStatus::Active,
        },
    );
    assert_eq!(p.advance_commitment_origin(id(9)), Err(AltDaError::ReorgRequired));
    assert!(p.resetting);
    assert_eq!(p.commitment_origin.number, 0);
    p.reset(block(4));
    assert!(!p.resetting);
    assert_eq!(p.commitment_origin.number, 4);
    assert_eq!(p.challenge_origin.number, 0);
    assert_eq!(p.state.expired_commitments.len(), 0);
}

#[test]
fn reset_without_pending_reset_moves_both_origins() {
    let mut p = AltDAProvider::new_alt_da(cfg(CommitmentType::Generic));
    p.state.create_challenge(new_commitment_data(CommitmentType::Generic, b"a"), id(1), 1);
    p.reset(block(9));
    assert_eq!(p.challenge_origin.number, 9);
    assert_eq!(p.commitment_origin.number, 9);
    assert!(p.state.no_commitments());
}

#[test]
fn advance_l1_origin_asks_for_finalized_block_when_idle() {
    let mut p = AltDAProvider::new_alt_da(cfg(CommitmentType::Generic));
    assert_eq!(p.advance_l1_origin(id(5), None, None), Ok(None));
    p.l1_finalized_head = block(25);
    assert_eq!(p.advance_l1_origin(id(6), None, None), Ok(Some(15)));
    assert_eq!(p.finalized_lookup(), Some(15));
    assert_eq!(p.update_finalized_from_l1(None), Err(AltDaError::NetworkError));
    assert_eq!(p.update_finalized_from_l1(Some(block(15))), Ok(()));
    assert_eq!(p.finalized_head.number, 15);
}

#[test]
fn update_finalized_from_l1_is_idle_below_window() {
    let mut p = AltDAProvider::new_alt_da(cfg(CommitmentType::Generic));
    p.l1_finalized_head = block(3);
    assert_eq!(p.finalized_lookup(), None);
    assert_eq!(p.update_finalized_from_l1(None), Ok(()));
}

#[test]
fn finalize_takes_last_pruned_commitment() {
    let mut p = AltDAProvider::new_alt_da(cfg(CommitmentType::Generic));
    let c = new_commitment_data(CommitmentType::Generic, b"a");
    assert_eq!(p.get_input_track(&c, Some(block(3))), Ok(()));
    assert_eq!(p.advance_commitment_origin(id(13)), Ok(()));
    let head = p.finalize(block(20));
    assert_eq!(head.number, 3);
    assert_eq!(p.l1_finalized_head.number, 20);
    let mut q = AltDAProvider::new_alt_da(cfg(CommitmentType::Generic));
    q.update_finalized_head(block(20));
    assert_eq!(q.finalized_head.number, 0);
}

#[test]
fn get_input_status_rejects_other_kinds_and_expired() {
    let mut p = AltDAProvider::new_alt_da(cfg(CommitmentType::Keccak256));
    let g = new_commitment_data(CommitmentType::Generic, b"a");
    assert_eq!(p.get_input_status(&g, id(3)), Err(AltDaError::ChallengeExpired));
    let k = new_commitment_data(CommitmentType::Keccak256, b"a");
    assert_eq!(p.get_input_status(&k, id(3)), Ok(ChallengeStatus::Uninitialized));
    let key = challenge_key(&k, 3);
    p.state.challenges_map.insert(
        key,
        Challenge {
            commitment_data: k.clone(),
            commitment_inclusion_block_number: 3,
            resolve_window_end: 8,
            input: None,
            challenge_status: ChallengeStatus::Expired,
        },
    );
    assert_eq!(p.get_input_status(&k, id(3)), Err(AltDaError::ChallengeExpired));
    assert_eq!(p.get_input_track(&k, None), Err(AltDaError::NetworkError));
}

fn returned(action: InputAction) -> Result<Vec<u8>, AltDaError> {
    match action {
        InputAction::Return(r) => r,
        InputAction::LookAhead => panic!("expected an answer"),
    }
}

#[test]
fn get_input_finish_decisions() {
    let mut p = AltDAProvider::new_alt_da(cfg(CommitmentType::Keccak256));
    let k = new_commitment_data(CommitmentType::Keccak256, b"a");
    let unknown = ChallengeStatus::Uninitialized;
    assert_eq!(returned(p.get_input_finish(&k, id(3), unknown, Ok(vec![1]))), Ok(vec![1]));
    assert!(matches!(
        p.get_input_finish(&k, id(3), unknown, Err(AltDaError::NotFound)),
        InputAction::LookAhead
    ));
    assert_eq!(
        returned(p.get_input_finish(&k, id(3), unknown, Err(AltDaError::NetworkError))),
        Err(AltDaError::NetworkError)
    );
    p.challenge_origin = id(14);
    assert_eq!(
        returned(p.get_input_finish(&k, id(3), unknown, Err(AltDaError::NotFound))),
        Err(AltDaError::MissingPastWindow)
    );
    assert!(matches!(
        p.get_input_finish(&k, id(3), ChallengeStatus::Active, Err(AltDaError::NotFound)),
        InputAction::LookAhead
    ));
    assert_eq!(
        returned(p.get_input_finish(&k, id(3), ChallengeStatus::Expired, Err(AltDaError::NotFound))),
        Err(AltDaError::UnknownStatus)
    );
    let key = challenge_key(&k, 3);
    p.state.challenges_map.insert(
        key,
        Challenge {
            commitment_data: k.clone(),
            commitment_inclusion_block_number: 3,
            resolve_window_end: 8,
            input: Some(vec![7, 7]),
            challenge_status: ChallengeStatus::Resolved,
        },
    );
    assert!(p.resolved_input_available(&k, 3));
    assert_eq!(
        returned(p.get_input_finish(&k, id(3), ChallengeStatus::Resolved, Err(AltDaError::NotFound))),
        Ok(vec![7, 7])
    );
    let g = new_commitment_data(CommitmentType::Generic, b"a");
    assert_eq!(
        returned(p.get_input_finish(&g, id(3), ChallengeStatus::Resolved, Err(AltDaError::NotFound))),
        Err(AltDaError::MissingPastWindow)
    );
}

#[test]
fn look_ahead_targets_next_block() {
    let mut p = AltDAProvider::new_alt_da(cfg(CommitmentType::Generic));
    p.challenge_origin = id(41);
    assert_eq!(p.look_ahead_target(), 42);
    assert_eq!(p.look_ahead(None, None, None), Err(AltDaError::NetworkError));
    assert_eq!(p.look_ahead(Some(block(42)), None, None), Ok(()));
    assert_eq!(p.challenge_origin.number, 42);
}

#[test]
fn new_with_state_keeps_state() {
    let mut s = kona_altda::state::State::new(cfg(CommitmentType::Generic));
    s.track_commitment(new_commitment_data(CommitmentType::Generic, b"x"), block(1));
    let p = AltDAProvider::new_alt_da_with_state(cfg(CommitmentType::Generic), s);
    assert_eq!(p.state.commitments.len(), 1);
}
