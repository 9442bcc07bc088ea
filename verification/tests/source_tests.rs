use kona_altda::calldata::{CalldataSource, CalldataTx};
use kona_altda::commitment::new_commitment_data;
use kona_altda::source::{
    select_data_source, AltDaSource, DataSourceKind, PipelineError, PipelineErrorKind, ResetError,
    SourceStep,
};
use kona_altda::test_utils::TestAltDAInputFetcher;
use kona_altda::types::{AltDaError, BlockInfo, BlockNumHash, CommitmentType, MAX_INPUT_SIZE};

fn block(number: u64, timestamp: u64) -> BlockInfo {
    BlockInfo { hash: [0xab; 32], number, parent_hash: [0; 32], timestamp }
}

fn id() -> BlockNumHash {
    BlockNumHash { hash: [1; 32], number: 1 }
}

#[test]
fn data_source_kind_follows_ecotone() {
    assert_eq!(select_data_source(None, &block(1, 100)), DataSourceKind::Calldata);
    assert_eq!(select_data_source(Some(100), &block(1, 100)), DataSourceKind::Blob);
    assert_eq!(select_data_source(Some(101), &block(1, 100)), DataSourceKind::Calldata);
}

#[test]
fn advance_results() {
    let src = AltDaSource::new(id());
    assert!(src.on_advance(Ok(())).is_none());
    assert!(matches!(
        src.on_advance(Err(AltDaError::ReorgRequired)),
        Some(PipelineErrorKind::Reset(ResetError::NewExpiredChallenge))
    ));
    match src.on_advance(Err(AltDaError::NotEnoughData)) {
        Some(PipelineErrorKind::Temporary(PipelineError::AltDaAdvanceFailed(m))) => {
            assert_eq!(m, "not enough data")
        }
        other => panic!("unexpected {:?}", other),
    }
}

#[test]
fn source_data_forwarding_and_commitments() {
    let mut src = AltDaSource::new(id());
    assert!(src.needs_data());
    assert!(matches!(
        src.on_source_data(None),
        SourceStep::Stop(Err(PipelineErrorKind::Temporary(PipelineError::NotEnoughData)))
    ));
    assert!(matches!(
        src.on_source_data(Some(vec![])),
        SourceStep::Stop(Err(PipelineErrorKind::Temporary(PipelineError::NotEnoughData)))
    ));
    match src.on_source_data(Some(vec![2u8])) {
        SourceStep::Stop(Ok(d)) => assert_eq!(d, vec![2u8]),
        other => panic!("unexpected {:?}", other),
    }
    assert!(matches!(
        src.on_source_data(Some(vec![1u8, 7])),
        SourceStep::Stop(Err(PipelineErrorKind::Temporary(PipelineError::NotEnoughData)))
    ));
    assert!(src.needs_data());
    let c = new_commitment_data(CommitmentType::Keccak256, b"batch");
    assert!(matches!(src.on_source_data(Some(c.tx_data())), SourceStep::FetchInput));
    assert!(!src.needs_data());
    assert_eq!(src.pending_commitment().unwrap().encode(), c.encode());
}

fn with_commitment() -> AltDaSource {
    let mut src = AltDaSource::new(id());
    let c = new_commitment_data(CommitmentType::Generic, &[0xab]);
    assert!(matches!(src.on_source_data(Some(c.tx_data())), SourceStep::FetchInput));
    src
}

#[test]
fn input_answers() {
    let mut src = with_commitment();
    match src.on_input(Ok(vec![5, 6])) {
        SourceStep::Stop(Ok(d)) => assert_eq!(d, vec![5, 6]),
        other => panic!("unexpected {:?}", other),
    }
    assert!(src.needs_data());

    let mut src = with_commitment();
    assert!(matches!(src.on_input(Ok(vec![0u8; MAX_INPUT_SIZE + 1])), SourceStep::Restart));
    assert!(src.needs_data());

    let mut src = with_commitment();
    assert!(matches!(src.on_input(Err(AltDaError::ChallengeExpired)), SourceStep::Restart));
    assert!(src.needs_data());

    let mut src = with_commitment();
    assert!(matches!(
        src.on_input(Err(AltDaError::ReorgRequired)),
        SourceStep::Stop(Err(PipelineErrorKind::Reset(ResetError::NewExpiredChallenge)))
    ));
    assert!(!src.needs_data());

    let mut src = with_commitment();
    assert!(matches!(
        src.on_input(Err(AltDaError::ChallengePending)),
        SourceStep::Stop(Err(PipelineErrorKind::Temporary(PipelineError::NotEnoughData)))
    ));

    let mut src = with_commitment();
    match src.on_input(Err(AltDaError::MissingPastWindow)) {
        SourceStep::Stop(Err(PipelineErrorKind::Critical(PipelineError::CommitmentDataEmpty(m)))) => {
            // hex of the text "01ab"
            assert_eq!(m, "30316162")
        }
        other => panic!("unexpected {:?}", other),
    }

    let mut src = with_commitment();
    match src.on_input(Err(AltDaError::NetworkError)) {
        SourceStep::Stop(Err(PipelineErrorKind::Temporary(PipelineError::CommitmentDataEmpty(m)))) => {
            assert_eq!(m, "01ab")
        }
        other => panic!("unexpected {:?}", other),
    }
    assert!(!src.needs_data());
}

/// Runs one pull the way the data iterator does, with scripted answers: batcher data in
/// order, and the fetcher's answer for each commitment in order.
fn pull(
    src: &mut AltDaSource,
    data: &mut Vec<Option<Vec<u8>>>,
    inputs: &mut Vec<Result<Vec<u8>, AltDaError>>,
) -> Result<Vec<u8>, PipelineErrorKind> {
    loop {
        if let Some(e) = src.on_advance(Ok(())) {
            return Err(e);
        }
        if src.needs_data() {
            match src.on_source_data(data.remove(0)) {
                SourceStep::Stop(r) => return r,
                SourceStep::Restart => continue,
                SourceStep::FetchInput => {}
            }
        }
        src.pending_commitment()?;
        match src.on_input(inputs.remove(0)) {
            SourceStep::Stop(r) => return r,
            SourceStep::Restart | SourceStep::FetchInput => continue,
        }
    }
}

#[test]
fn pull_skips_oversized_and_expired_batches() {
    let c = new_commitment_data(CommitmentType::Generic, &[0xab]);
    let mut src = AltDaSource::new(id());
    let mut data = vec![
        Some(c.tx_data()),
        Some(c.tx_data()),
        Some(vec![2u8, 3]),
        Some(c.tx_data()),
    ];
    let mut inputs = vec![
        Ok(vec![0u8; MAX_INPUT_SIZE + 1]),
        Err(AltDaError::ChallengeExpired),
        Ok(vec![0u8; MAX_INPUT_SIZE]),
    ];
    // Both batches are skipped; the next batcher data is forwarded as read.
    assert_eq!(pull(&mut src, &mut data, &mut inputs).unwrap(), vec![2u8, 3]);
    assert!(src.needs_data());
    // An input at the size limit is answered, and nothing stays pending.
    assert_eq!(pull(&mut src, &mut data, &mut inputs).unwrap().len(), MAX_INPUT_SIZE);
    assert!(src.needs_data());
    assert!(data.is_empty() && inputs.is_empty());
}

#[test]
fn pending_commitment_without_one() {
    let src = AltDaSource::new(id());
    assert!(matches!(
        src.pending_commitment(),
        Err(PipelineErrorKind::Temporary(PipelineError::NotEnoughData))
    ));
}

fn tx(supported: bool, to: Option<[u8; 20]>, signer: Option<[u8; 20]>, input: Vec<u8>) -> CalldataTx {
    CalldataTx { supported, to, signer, input }
}

#[test]
fn calldata_source_selects_batcher_transactions() {
    let inbox = [0x10; 20];
    let batcher = [0x20; 20];
    let mut src = CalldataSource::new(inbox, block(5, 60), batcher);
    let txs = vec![
        tx(true, Some(inbox), Some(batcher), vec![1, 2]),
        tx(false, Some(inbox), Some(batcher), vec![3]),
        tx(true, Some([0x11; 20]), Some(batcher), vec![4]),
        tx(true, None, Some(batcher), vec![5]),
        tx(true, Some(inbox), Some([0x21; 20]), vec![6]),
        tx(true, Some(inbox), None, vec![7]),
        tx(true, Some(inbox), Some(batcher), vec![8]),
    ];
    assert_eq!(src.next(Some(txs)).unwrap(), vec![1, 2]);
    assert!(src.open);
    assert_eq!(src.next(None).unwrap(), vec![8]);
    assert!(matches!(src.next(None), Err(PipelineErrorKind::Temporary(PipelineError::Eof))));
}

#[test]
fn calldata_source_load_failure_names_block() {
    let mut src = CalldataSource::new([0x10; 20], block(5, 60), [0x20; 20]);
    match src.next(None) {
        Err(PipelineErrorKind::Temporary(PipelineError::Provider(m))) => assert_eq!(
            m,
            format!("Failed to load calldata for block 0x{}", "ab".repeat(32))
        ),
        other => panic!("unexpected {:?}", other),
    }
    assert!(!src.open);
    assert_eq!(src.load_calldata(Some(vec![])), Ok(()));
    assert!(src.open);
    assert_eq!(src.load_calldata(None), Ok(()));
}

#[test]
fn scripted_fetcher_answers_last_first() {
    let mut f = TestAltDAInputFetcher {
        inputs: vec![Ok(vec![1]), Err(AltDaError::NotFound)],
        advances: vec![Ok(()), Err(AltDaError::ReorgRequired)],
        resets: vec![],
    };
    assert_eq!(f.get_input(), Err(AltDaError::NotFound));
    assert_eq!(f.get_input(), Ok(vec![1]));
    assert_eq!(f.advance_l1_origin(), Err(AltDaError::ReorgRequired));
    assert_eq!(f.advance_l1_origin(), Ok(()));
    assert!(f.inputs.is_empty() && f.advances.is_empty());
}
