//! The alt-DA input fetcher: the decisions it takes between its calls to the L1 chain and
//! to the DA storage. The caller makes those calls and hands their results in.

use vstd::prelude::*;
use crate::commitment::{
    decode_commitment_data, spec_decode_commitment, spec_verifies, CommitmentData,
    CommitmentView,
};
use crate::events::{
    challenge_event_block_number_overflows, challenge_event_block_number_too_large,
    challenge_event_signature, challenge_event_signature_hash, decode_resolved_input,
    resolved_input_panics, resolved_input_would_panic, spec_decode_challenge_event,
    spec_decode_resolved_input, Log, LogEntry,
};
use crate::primitives::bytes_equal;
use crate::state::{
    challenge_expired_by, expire_commitments_post, expire_status, leading_count,
    lemma_leading_count, lemma_leading_count_is, prune_post, spec_challenge_entry_key,
    spec_challenge_key, spec_challenge_status, same_state, Challenge, ChallengeRecord, ChallengeStatus, State,
};
use crate::types::{
    is_zero_block, AltDaError, BlockInfo, BlockNumHash, CommitmentType, InputFetcherConfig,
};

verus! {

/// A transaction receipt: the events its transaction emitted.
#[derive(Debug)]
pub struct Receipt {
    /// The events, in order.
    pub logs: Vec<LogEntry>,
}

/// What the fetcher reads of an L1 transaction.
#[derive(Debug)]
pub struct L1Transaction {
    /// The transaction hash.
    pub hash: [u8; 32],
    /// The calldata.
    pub input: Vec<u8>,
}

/// An L1 block with its transactions.
#[derive(Debug)]
pub struct L1BlockData {
    /// The block.
    pub info: BlockInfo,
    /// Its transactions, in order.
    pub transactions: Vec<L1Transaction>,
}

/// The status that a status event's byte stands for.
pub open spec fn spec_status_from_byte(b: u8) -> Option<ChallengeStatus> {
    if b == 0 {
        Some(ChallengeStatus::Uninitialized)
    } else if b == 1 {
        Some(ChallengeStatus::Active)
    } else if b == 2 {
        Some(ChallengeStatus::Resolved)
    } else if b == 3 {
        Some(ChallengeStatus::Expired)
    } else {
        None
    }
}

/// Reads the status byte of a status event.
pub fn status_from_byte(b: u8) -> (res: Option<ChallengeStatus>)
    ensures
        res == spec_status_from_byte(b),
{
    match b {
        0 => Some(ChallengeStatus::Uninitialized),
        1 => Some(ChallengeStatus::Active),
        2 => Some(ChallengeStatus::Resolved),
        3 => Some(ChallengeStatus::Expired),
        _ => None,
    }
}

/// What decoding a status event into a status, a commitment and the block number of the
/// commitment gives.
pub open spec fn spec_decode_challenge_status(log: LogEntry) -> Result<
    (ChallengeStatus, CommitmentView, u64),
    AltDaError,
> {
    match spec_decode_challenge_event(log) {
        Err(_) => Err(AltDaError::DecodeError),
        Ok((c, n, s)) => match spec_decode_commitment(c) {
            None => Err(AltDaError::InvalidCommitment),
            Some(cv) => match spec_status_from_byte(s) {
                None => Err(AltDaError::UnknownStatus),
                Some(st) => Ok((st, cv, n)),
            },
        },
    }
}

/// Whether an event is a status event of the challenge contract.
pub open spec fn is_challenge_log(e: LogEntry, contract: [u8; 20]) -> bool {
    &&& e.address@ == contract@
    &&& e.topics@.len() > 0
    &&& e.topics@[0]@ == challenge_event_signature()
}

/// The event `e`, the `j`th of the `i`th receipt, placed in its block.
pub open spec fn placed_log(e: LogEntry, i: int, j: int, block: BlockNumHash, data: L1BlockData) -> Log {
    Log {
        inner: e,
        block_hash: Some(block.hash),
        block_number: Some(data.info.number),
        block_timestamp: Some(data.info.timestamp),
        transaction_hash: Some(data.transactions@[i].hash),
        transaction_index: Some(i as u64),
        log_index: Some(j as u64),
        removed: false,
    }
}

/// The status events among the first `count` events of the `i`th receipt.
pub open spec fn receipt_challenge_logs(
    entries: Seq<LogEntry>,
    count: nat,
    i: int,
    block: BlockNumHash,
    data: L1BlockData,
    contract: [u8; 20],
) -> Seq<Log>
    decreases count,
{
    if count == 0 {
        Seq::empty()
    } else {
        let j = count - 1;
        let prev = receipt_challenge_logs(entries, (count - 1) as nat, i, block, data, contract);
        if is_challenge_log(entries[j], contract) {
            prev.push(placed_log(entries[j], i, j, block, data))
        } else {
            prev
        }
    }
}

/// The status events of the first `count` receipts, in order.
pub open spec fn challenge_logs_upto(
    receipts: Seq<Receipt>,
    count: nat,
    block: BlockNumHash,
    data: L1BlockData,
    contract: [u8; 20],
) -> Seq<Log>
    decreases count,
{
    if count == 0 {
        Seq::empty()
    } else {
        let i = count - 1;
        challenge_logs_upto(receipts, (count - 1) as nat, block, data, contract)
            + receipt_challenge_logs(
            receipts[i].logs@,
            receipts[i].logs@.len(),
            i,
            block,
            data,
            contract,
        )
    }
}

/// The status events of a block: those of the receipts that have a transaction beside
/// them, in order.
pub open spec fn spec_challenge_logs(
    receipts: Seq<Receipt>,
    block: BlockNumHash,
    data: L1BlockData,
    contract: [u8; 20],
) -> Seq<Log> {
    let n = if receipts.len() < data.transactions@.len() {
        receipts.len()
    } else {
        data.transactions@.len()
    };
    challenge_logs_upto(receipts, n, block, data, contract)
}

/// The position of a collected event's transaction in its block.
pub open spec fn tx_position(l: Log) -> int {
    l.transaction_index.unwrap() as int
}

/// The position of a collected event in its transaction's receipt.
pub open spec fn event_position(l: Log) -> int {
    l.log_index.unwrap() as int
}

/// The status events collected from one receipt are exactly its events from the challenge
/// contract with the status signature, each placed at its own position, in order.
proof fn lemma_receipt_challenge_logs(
    entries: Seq<LogEntry>,
    count: nat,
    i: int,
    block: BlockNumHash,
    data: L1BlockData,
    contract: [u8; 20],
)
    requires
        count <= entries.len(),
        count <= u64::MAX,
        0 <= i <= u64::MAX,
    ensures
        forall|j: int|
            0 <= j < count && is_challenge_log(entries[j], contract) ==> receipt_challenge_logs(
                entries,
                count,
                i,
                block,
                data,
                contract,
            ).contains(#[trigger] placed_log(entries[j], i, j, block, data)),
        forall|k: int|
            0 <= k < receipt_challenge_logs(entries, count, i, block, data, contract).len()
                ==> exists|j: int|
                0 <= j < count && is_challenge_log(entries[j], contract)
                    && #[trigger] receipt_challenge_logs(entries, count, i, block, data, contract)[k]
                    == placed_log(entries[j], i, j, block, data),
        forall|k: int|
            0 <= k < receipt_challenge_logs(entries, count, i, block, data, contract).len() ==> {
                let l = #[trigger] receipt_challenge_logs(entries, count, i, block, data, contract)[k];
                &&& tx_position(l) == i
                &&& 0 <= event_position(l) < count
            },
        forall|k1: int, k2: int|
            0 <= k1 < k2 < receipt_challenge_logs(entries, count, i, block, data, contract).len()
                ==> event_position(
                #[trigger] receipt_challenge_logs(entries, count, i, block, data, contract)[k1],
            ) < event_position(
                #[trigger] receipt_challenge_logs(entries, count, i, block, data, contract)[k2],
            ),
    decreases count,
{
    if count > 0 {
        let c1 = (count - 1) as nat;
        lemma_receipt_challenge_logs(entries, c1, i, block, data, contract);
        let prev = receipt_challenge_logs(entries, c1, i, block, data, contract);
        let r = receipt_challenge_logs(entries, count, i, block, data, contract);
        let j0 = count - 1;
        if is_challenge_log(entries[j0], contract) {
            let pl = placed_log(entries[j0], i, j0, block, data);
            assert(r == prev.push(pl));
            assert(r[prev.len() as int] == pl);
            assert forall|j: int|
                0 <= j < count && is_challenge_log(entries[j], contract) implies r.contains(
                #[trigger] placed_log(entries[j], i, j, block, data),
            ) by {
                if j < j0 {
                    let k = choose|k: int| 0 <= k < prev.len() && prev[k] == placed_log(entries[j], i, j, block, data);
                    assert(r[k] == prev[k]);
                }
            }
            assert forall|k: int| 0 <= k < r.len() implies exists|j: int|
                0 <= j < count && is_challenge_log(entries[j], contract) && #[trigger] r[k]
                    == placed_log(entries[j], i, j, block, data) by {
                if k < prev.len() {
                    assert(r[k] == prev[k]);
                } else {
                    assert(r[k] == placed_log(entries[j0], i, j0, block, data));
                }
            }
            assert forall|k: int| 0 <= k < r.len() implies {
                let l = #[trigger] r[k];
                &&& tx_position(l) == i
                &&& 0 <= event_position(l) < count
            } by {
                if k < prev.len() {
                    assert(r[k] == prev[k]);
                }
            }
            assert forall|k1: int, k2: int| 0 <= k1 < k2 < r.len() implies event_position(
                #[trigger] r[k1],
            ) < event_position(#[trigger] r[k2]) by {
                assert(r[k1] == prev[k1]);
                if k2 < prev.len() {
                    assert(r[k2] == prev[k2]);
                } else {
                    assert(event_position(prev[k1]) < c1);
                }
            }
        } else {
            assert(r == prev);
        }
    }
}

/// Receipts and their event lists that positions in a block can number.
pub open spec fn receipts_numberable(receipts: Seq<Receipt>) -> bool {
    &&& receipts.len() <= u64::MAX
    &&& forall|i: int| 0 <= i < receipts.len() ==> (#[trigger] receipts[i]).logs@.len() <= u64::MAX
}

/// Whether `l` is the `j`th event of the `i`th receipt, that event is sent by the
/// challenge contract with the status signature as its first topic, and `l` places it in
/// its block: the block's hash, number and timestamp, the `i`th transaction's hash, and the
/// positions `i` and `j`.
pub open spec fn collected_from(
    l: Log,
    receipts: Seq<Receipt>,
    i: int,
    j: int,
    block: BlockNumHash,
    data: L1BlockData,
    contract: [u8; 20],
) -> bool {
    let e = receipts[i].logs@[j];
    &&& 0 <= i < receipts.len()
    &&& 0 <= j < receipts[i].logs@.len()
    &&& e.address@ == contract@
    &&& e.topics@.len() > 0
    &&& e.topics@[0]@ == challenge_event_signature()
    &&& l.inner == e
    &&& l.block_hash == Some(block.hash)
    &&& l.block_number == Some(data.info.number)
    &&& l.block_timestamp == Some(data.info.timestamp)
    &&& l.transaction_hash == Some(data.transactions@[i].hash)
    &&& l.transaction_index == Some(i as u64)
    &&& l.log_index == Some(j as u64)
    &&& !l.removed
}

/// Whether some event of `out` is the `j`th event of the `i`th receipt, placed in its
/// block (see `collected_from`).
pub open spec fn collects(
    out: Seq<Log>,
    receipts: Seq<Receipt>,
    i: int,
    j: int,
    block: BlockNumHash,
    data: L1BlockData,
    contract: [u8; 20],
) -> bool {
    exists|k: int| 0 <= k < out.len() && #[trigger] collected_from(out[k], receipts, i, j, block, data, contract)
}

/// Whether `l` is a status event of the challenge contract from one of the first `limit`
/// receipts, placed in its block.
pub open spec fn collected_within(
    l: Log,
    receipts: Seq<Receipt>,
    limit: int,
    block: BlockNumHash,
    data: L1BlockData,
    contract: [u8; 20],
) -> bool {
    exists|i: int, j: int| i < limit && #[trigger] collected_from(l, receipts, i, j, block, data, contract)
}

/// The events collected from the first `count` receipts: every status event among them,
/// nothing else, ordered by transaction and then by position in the receipt.
proof fn lemma_challenge_logs_upto(
    receipts: Seq<Receipt>,
    count: nat,
    block: BlockNumHash,
    data: L1BlockData,
    contract: [u8; 20],
)
    requires
        count <= receipts.len(),
        receipts_numberable(receipts),
    ensures
        forall|i: int, j: int|
            0 <= i < count && 0 <= j < receipts[i].logs@.len() && is_challenge_log(
                receipts[i].logs@[j],
                contract,
            ) ==> challenge_logs_upto(receipts, count, block, data, contract).contains(
                #[trigger] placed_log(receipts[i].logs@[j], i, j, block, data),
            ),
        forall|k: int|
            0 <= k < challenge_logs_upto(receipts, count, block, data, contract).len()
                ==> #[trigger] collected_within(
                challenge_logs_upto(receipts, count, block, data, contract)[k],
                receipts,
                count as int,
                block,
                data,
                contract,
            ),
        forall|k: int|
            0 <= k < challenge_logs_upto(receipts, count, block, data, contract).len() ==> 0
                <= tx_position(
                #[trigger] challenge_logs_upto(receipts, count, block, data, contract)[k],
            ) < count,
        forall|k1: int, k2: int|
            0 <= k1 < k2 < challenge_logs_upto(receipts, count, block, data, contract).len()
                ==> {
                let a = #[trigger] challenge_logs_upto(receipts, count, block, data, contract)[k1];
                let b = #[trigger] challenge_logs_upto(receipts, count, block, data, contract)[k2];
                tx_position(a) < tx_position(b) || (tx_position(a) == tx_position(b)
                    && event_position(a) < event_position(b))
            },
    decreases count,
{
    if count > 0 {
        let c1 = (count - 1) as nat;
        let i0 = count - 1;
        lemma_challenge_logs_upto(receipts, c1, block, data, contract);
        let entries = receipts[i0].logs@;
        let n0 = entries.len();
        lemma_receipt_challenge_logs(entries, n0, i0, block, data, contract);
        let prev = challenge_logs_upto(receipts, c1, block, data, contract);
        let rc = receipt_challenge_logs(entries, n0, i0, block, data, contract);
        let out = challenge_logs_upto(receipts, count, block, data, contract);
        assert(out == prev + rc);
        assert forall|i: int, j: int|
            0 <= i < count && 0 <= j < receipts[i].logs@.len() && is_challenge_log(
                receipts[i].logs@[j],
                contract,
            ) implies out.contains(#[trigger] placed_log(receipts[i].logs@[j], i, j, block, data)) by {
            let pl = placed_log(receipts[i].logs@[j], i, j, block, data);
            if i < i0 {
                let k = choose|k: int| 0 <= k < prev.len() && prev[k] == pl;
                assert(out[k] == prev[k]);
            } else {
                assert(rc.contains(placed_log(entries[j], i0, j, block, data)));
                let k = choose|k: int| 0 <= k < rc.len() && rc[k] == pl;
                assert(out[prev.len() + k] == rc[k]);
            }
        }
        assert forall|k: int| 0 <= k < out.len() implies #[trigger] collected_within(
            out[k],
            receipts,
            count as int,
            block,
            data,
            contract,
        ) by {
            if k < prev.len() {
                assert(out[k] == prev[k]);
                assert(collected_within(prev[k], receipts, c1 as int, block, data, contract));
                let (i, j) = choose|i: int, j: int|
                    i < c1 && #[trigger] collected_from(prev[k], receipts, i, j, block, data, contract);
                assert(collected_from(out[k], receipts, i, j, block, data, contract));
            } else {
                let k2 = k - prev.len();
                assert(out[k] == rc[k2]);
                let j = choose|j: int|
                    0 <= j < n0 && is_challenge_log(entries[j], contract) && #[trigger] rc[k2]
                        == placed_log(entries[j], i0, j, block, data);
                assert(collected_from(out[k], receipts, i0, j, block, data, contract));
            }
        }
        assert forall|k: int| 0 <= k < out.len() implies 0 <= tx_position(#[trigger] out[k])
            < count by {
            if k < prev.len() {
                assert(out[k] == prev[k]);
            } else {
                assert(out[k] == rc[k - prev.len()]);
            }
        }
        assert forall|k1: int, k2: int| 0 <= k1 < k2 < out.len() implies {
            let a = #[trigger] out[k1];
            let b = #[trigger] out[k2];
            tx_position(a) < tx_position(b) || (tx_position(a) == tx_position(b)
                && event_position(a) < event_position(b))
        } by {
            if k2 < prev.len() {
                assert(out[k1] == prev[k1]);
                assert(out[k2] == prev[k2]);
            } else if k1 < prev.len() {
                assert(out[k1] == prev[k1]);
                assert(out[k2] == rc[k2 - prev.len()]);
                assert(tx_position(prev[k1]) < c1);
            } else {
                assert(out[k1] == rc[k1 - prev.len()]);
                assert(out[k2] == rc[k2 - prev.len()]);
            }
        }
    }
}

/// The status events of a block are every event of every receipt that has a transaction
/// beside it, sent by the challenge contract with the status signature, placed at its
/// transaction's and its own position; nothing else is collected, and they come ordered
/// by transaction and then by position in the receipt.
pub proof fn law_challenge_logs_are_every_status_event(
    receipts: Seq<Receipt>,
    block: BlockNumHash,
    data: L1BlockData,
    contract: [u8; 20],
)
    requires
        receipts_numberable(receipts),
    ensures
        forall|i: int, j: int|
            0 <= i < receipts.len() && i < data.transactions@.len() && 0 <= j
                < receipts[i].logs@.len() && receipts[i].logs@[j].address@ == contract@
                && receipts[i].logs@[j].topics@.len() > 0 && receipts[i].logs@[j].topics@[0]@
                == challenge_event_signature() ==> #[trigger] collects(
                spec_challenge_logs(receipts, block, data, contract),
                receipts,
                i,
                j,
                block,
                data,
                contract,
            ),
        forall|k: int|
            0 <= k < spec_challenge_logs(receipts, block, data, contract).len()
                ==> #[trigger] collected_within(
                spec_challenge_logs(receipts, block, data, contract)[k],
                receipts,
                data.transactions@.len() as int,
                block,
                data,
                contract,
            ),
        forall|k1: int, k2: int|
            0 <= k1 < k2 < spec_challenge_logs(receipts, block, data, contract).len() ==> {
                let a = #[trigger] spec_challenge_logs(receipts, block, data, contract)[k1];
                let b = #[trigger] spec_challenge_logs(receipts, block, data, contract)[k2];
                tx_position(a) < tx_position(b) || (tx_position(a) == tx_position(b)
                    && event_position(a) < event_position(b))
            },
{
    let n = if receipts.len() < data.transactions@.len() {
        receipts.len()
    } else {
        data.transactions@.len()
    };
    lemma_challenge_logs_upto(receipts, n, block, data, contract);
    let out = spec_challenge_logs(receipts, block, data, contract);
    assert forall|i: int, j: int|
        0 <= i < receipts.len() && i < data.transactions@.len() && 0 <= j
            < receipts[i].logs@.len() && receipts[i].logs@[j].address@ == contract@
            && receipts[i].logs@[j].topics@.len() > 0 && receipts[i].logs@[j].topics@[0]@
            == challenge_event_signature() implies #[trigger] collects(
        out,
        receipts,
        i,
        j,
        block,
        data,
        contract,
    ) by {
        let pl = placed_log(receipts[i].logs@[j], i, j, block, data);
        assert(is_challenge_log(receipts[i].logs@[j], contract));
        assert(out.contains(pl));
        let k = choose|k: int| 0 <= k < out.len() && out[k] == pl;
        assert(collected_from(out[k], receipts, i, j, block, data, contract));
    }
    assert forall|k: int| 0 <= k < out.len() implies #[trigger] collected_within(
        out[k],
        receipts,
        data.transactions@.len() as int,
        block,
        data,
        contract,
    ) by {
        assert(collected_within(out[k], receipts, n as int, block, data, contract));
        let (i, j) = choose|i: int, j: int|
            i < n && #[trigger] collected_from(out[k], receipts, i, j, block, data, contract);
        assert(collected_from(out[k], receipts, i, j, block, data, contract));
    }
}

/// Collects the status events of the challenge contract from a block's receipts (`None`
/// where fetching them failed), each placed in its block and transaction (`None` where
/// fetching those failed). Under a generic configuration there are none, whatever was
/// fetched; a missing fetch result is a network error.
pub fn fetch_challenge_logs(
    cfg: &InputFetcherConfig,
    block: BlockNumHash,
    receipts: Option<Vec<Receipt>>,
    data: &Option<L1BlockData>,
) -> (res: Result<Vec<Log>, AltDaError>)
    ensures
        cfg.commitment_type == CommitmentType::Generic ==> (res matches Ok(l) && l@.len() == 0),
        cfg.commitment_type != CommitmentType::Generic && (receipts is None || data is None)
            ==> res == Err::<Vec<Log>, AltDaError>(AltDaError::NetworkError),
        cfg.commitment_type != CommitmentType::Generic && receipts is Some && data is Some ==> (
        res matches Ok(l) && l@ == spec_challenge_logs(
            receipts.unwrap()@,
            block,
            data.unwrap(),
            cfg.da_challenge_contract,
        )),
{
    if cfg.commitment_type == CommitmentType::Generic {
        return Ok(Vec::new());
    }
    let receipts = match receipts {
        Some(r) => r,
        None => return Err(AltDaError::NetworkError),
    };
    match data {
        Some(d) => Ok(collect_challenge_logs(cfg, block, receipts, d)),
        None => Err(AltDaError::NetworkError),
    }
}

/// Collects the status events of the challenge contract from a block's receipts, each
/// placed in its block and transaction.
fn collect_challenge_logs(
    cfg: &InputFetcherConfig,
    block: BlockNumHash,
    receipts: Vec<Receipt>,
    data: &L1BlockData,
) -> (res: Vec<Log>)
    ensures
        res@ == spec_challenge_logs(receipts@, block, *data, cfg.da_challenge_contract),
{
    let ghost all = receipts@;
    let n: usize = if receipts.len() < data.transactions.len() {
        receipts.len()
    } else {
        data.transactions.len()
    };
    let signature = challenge_event_signature_hash();
    let mut receipts = receipts;
    let mut logs: Vec<Log> = Vec::new();
    let mut i: usize = 0;
    while i < n
        invariant
            n <= all.len(),
            n <= data.transactions@.len(),
            i <= n,
            signature@ == challenge_event_signature(),
            receipts@ == all.skip(i as int),
            logs@ == challenge_logs_upto(all, i as nat, block, *data, cfg.da_challenge_contract),
        decreases n - i,
    {
        let receipt = receipts.remove(0);
        assert(receipt == all[i as int]);
        let ghost entries_all = receipt.logs@;
        let mut entries = receipt.logs;
        let total = entries.len();
        let ghost before = logs@;
        let mut j: usize = 0;
        while entries.len() > 0
            invariant
                j <= entries_all.len(),
                entries_all.len() == total,
                entries@ == entries_all.skip(j as int),
                i < n,
                n <= data.transactions@.len(),
                signature@ == challenge_event_signature(),
                logs@ == before + receipt_challenge_logs(
                    entries_all,
                    j as nat,
                    i as int,
                    block,
                    *data,
                    cfg.da_challenge_contract,
                ),
            decreases entries@.len(),
        {
            let e = entries.remove(0);
            assert(e == entries_all[j as int]);
            let matches = bytes_equal(e.address.as_slice(), cfg.da_challenge_contract.as_slice())
                && e.topics.len() > 0
                && bytes_equal(e.topics[0].as_slice(), signature.as_slice());
            let ghost prev = logs@;
            if matches {
                let tx_hash = data.transactions[i].hash;
                logs.push(
                    Log {
                        inner: e,
                        block_hash: Some(block.hash),
                        block_number: Some(data.info.number),
                        block_timestamp: Some(data.info.timestamp),
                        transaction_hash: Some(tx_hash),
                        transaction_index: Some(i as u64),
                        log_index: Some(j as u64),
                        removed: false,
                    },
                );
            }
            proof {
                assert(entries@ =~= entries_all.skip(j + 1));
            }
            j = j + 1;
        }
        proof {
            assert(j == entries_all.len()) by {
                assert(entries_all.skip(j as int).len() == 0);
            }
            assert(receipts@ =~= all.skip(i + 1));
        }
        i = i + 1;
    }
    logs
}

/// The challenges of a state, as their list and their map.
pub struct ChallengeBook {
    /// The open challenges, in order.
    pub challenges: Seq<ChallengeRecord>,
    /// The challenges by key.
    pub map: Map<Seq<char>, ChallengeRecord>,
}

/// The challenges of a state.
pub open spec fn book_of(s: State) -> ChallengeBook {
    ChallengeBook {
        challenges: s.challenges@.map_values(|c: Challenge| c@),
        map: s.challenges_map@,
    }
}

/// The input that a resolving event's transaction carries, where it is found and accepted
/// by the commitment: the transaction at the event's index, with the event's hash, whose
/// calldata decodes to an input that the keccak commitment accepts.
pub open spec fn resolved_input_for(
    log: Log,
    comm: CommitmentView,
    txs: Seq<L1Transaction>,
    kind: CommitmentType,
) -> Option<Seq<u8>> {
    match log.transaction_index {
        None => None,
        Some(i) => match log.transaction_hash {
            None => None,
            Some(h) => if txs[(i as usize) as int].hash@ != h@ {
                None
            } else if kind == CommitmentType::Keccak256 {
                match spec_decode_resolved_input(txs[(i as usize) as int].input@) {
                    Err(_) => None,
                    Ok(input) => if spec_verifies(comm, input) {
                        Some(input)
                    } else {
                        None
                    },
                }
            } else {
                None
            },
        },
    }
}

/// The inputs on which processing a status event panics: the block number does not fit in
/// 64 bits; a resolving event names a transaction that the block does not have, or one
/// whose calldata makes decoding panic, or comes under a generic configuration (which
/// decodes no input); a new challenge's resolve window ends past `u64::MAX`.
pub open spec fn challenge_log_panics(
    log: Log,
    block: BlockNumHash,
    txs: Seq<L1Transaction>,
    kind: CommitmentType,
    resolve_window: u64,
) -> bool {
    ||| challenge_event_block_number_overflows(log.inner)
    ||| match spec_decode_challenge_status(log.inner) {
        Ok((ChallengeStatus::Resolved, _, _)) => match log.transaction_index {
            None => false,
            Some(i) => (i as usize) >= txs.len() || match log.transaction_hash {
                None => false,
                Some(h) => txs[(i as usize) as int].hash@ == h@ && if kind
                    == CommitmentType::Keccak256 {
                    resolved_input_panics(txs[(i as usize) as int].input@)
                } else {
                    true
                },
            },
        },
        Ok((ChallengeStatus::Active, _, _)) => block.number + resolve_window > u64::MAX,
        _ => false,
    }
}

/// The open challenge that a status event starts.
pub open spec fn new_challenge_record(
    comm: CommitmentView,
    bn: u64,
    block: BlockNumHash,
    resolve_window: u64,
) -> ChallengeRecord {
    ChallengeRecord {
        commitment: comm,
        inclusion_block_number: bn,
        resolve_window_end: (block.number + resolve_window) as u64,
        input: None,
        status: ChallengeStatus::Active,
    }
}

/// What one status event does to the challenges: a resolving event with an accepted input
/// resolves the challenge found under the lookup key (if any); an event that opens a
/// challenge adds it to the list and stores it under its storage key; every other event
/// changes nothing.
pub open spec fn apply_challenge_log(
    book: ChallengeBook,
    log: Log,
    block: BlockNumHash,
    txs: Seq<L1Transaction>,
    kind: CommitmentType,
    resolve_window: u64,
) -> ChallengeBook {
    match spec_decode_challenge_status(log.inner) {
        Ok((ChallengeStatus::Resolved, comm, bn)) => match resolved_input_for(log, comm, txs, kind) {
            None => book,
            Some(input) => {
                let key = spec_challenge_key(comm, bn);
                if book.map.dom().contains(key) {
                    ChallengeBook {
                        challenges: book.challenges,
                        map: book.map.insert(
                            key,
                            ChallengeRecord {
                                input: Some(input),
                                status: ChallengeStatus::Resolved,
                                ..book.map[key]
                            },
                        ),
                    }
                } else {
                    book
                }
            },
        },
        Ok((ChallengeStatus::Active, comm, bn)) => {
            let rec = new_challenge_record(comm, bn, block, resolve_window);
            ChallengeBook {
                challenges: book.challenges.push(rec),
                map: book.map.insert(spec_challenge_entry_key(comm, bn), rec),
            }
        },
        _ => book,
    }
}

/// What a sequence of status events does to the challenges, one after the other.
pub open spec fn apply_challenge_logs(
    book: ChallengeBook,
    logs: Seq<Log>,
    block: BlockNumHash,
    txs: Seq<L1Transaction>,
    kind: CommitmentType,
    resolve_window: u64,
) -> ChallengeBook
    decreases logs.len(),
{
    if logs.len() == 0 {
        book
    } else {
        apply_challenge_log(
            apply_challenge_logs(book, logs.drop_last(), block, txs, kind, resolve_window),
            logs.last(),
            block,
            txs,
            kind,
            resolve_window,
        )
    }
}

/// Whether processing one of `logs` panics.
pub open spec fn challenge_logs_panic(
    logs: Seq<Log>,
    block: BlockNumHash,
    txs: Seq<L1Transaction>,
    kind: CommitmentType,
    resolve_window: u64,
) -> bool {
    exists|i: int|
        0 <= i < logs.len() && challenge_log_panics(
            #[trigger] logs[i],
            block,
            txs,
            kind,
            resolve_window,
        )
}

/// Decodes a status event into its status, the challenged commitment and the block number
/// at which it was committed.
pub fn decode_challenge_status(log: &Log) -> (res: Result<
    (ChallengeStatus, CommitmentData, u64),
    AltDaError,
>)
    requires
        !challenge_event_block_number_overflows(log.inner),
    ensures
        match spec_decode_challenge_status(log.inner) {
            Ok((st, c, n)) => res matches Ok((st2, c2, n2)) && st2 == st && c2@ == c && n2 == n,
            Err(e) => res matches Err(e2) && e2 == e,
        },
{
    decode_challenge_status_entry(&log.inner)
}

/// Decodes the event itself, without where it was found; see `decode_challenge_status`.
pub fn decode_challenge_status_entry(log: &LogEntry) -> (res: Result<
    (ChallengeStatus, CommitmentData, u64),
    AltDaError,
>)
    requires
        !challenge_event_block_number_overflows(*log),
    ensures
        match spec_decode_challenge_status(*log) {
            Ok((st, c, n)) => res matches Ok((st2, c2, n2)) && st2 == st && c2@ == c && n2 == n,
            Err(e) => res matches Err(e2) && e2 == e,
        },
{
    let (challenged_commitment, block_number, status) = match crate::events::decode_challenge_status_entry(log) {
        Ok(r) => r,
        Err(_) => return Err(AltDaError::DecodeError),
    };
    let commitment = match decode_commitment_data(challenged_commitment.as_slice()) {
        Ok(c) => c,
        Err(_) => return Err(AltDaError::InvalidCommitment),
    };
    match status_from_byte(status) {
        Some(st) => Ok((st, commitment, block_number)),
        None => Err(AltDaError::UnknownStatus),
    }
}

/// Whether a challenge has expired at `origin`.
pub open spec fn record_expired_by(origin: u64) -> spec_fn(ChallengeRecord) -> bool {
    |r: ChallengeRecord| r.resolve_window_end <= origin
}

/// A challenge as it is once its resolve window has passed: an open one becomes expired.
pub open spec fn expire_record(r: ChallengeRecord) -> ChallengeRecord {
    ChallengeRecord {
        status: if r.status == ChallengeStatus::Active {
            ChallengeStatus::Expired
        } else {
            r.status
        },
        ..r
    }
}

/// The leading count over the views of a sequence is the leading count over the sequence,
/// for predicates that agree.
pub proof fn lemma_leading_count_views(s: Seq<Challenge>, origin: u64)
    ensures
        leading_count(s.map_values(|c: Challenge| c@), record_expired_by(origin)) == leading_count(
            s,
            challenge_expired_by(origin),
        ),
{
    let v = s.map_values(|c: Challenge| c@);
    let p = challenge_expired_by(origin);
    let q = record_expired_by(origin);
    lemma_leading_count(s, p);
    let k = leading_count(s, p) as int;
    assert forall|i: int| 0 <= i < k implies q(#[trigger] v[i]) by {
        assert(p(s[i]));
    }
    if k < v.len() {
        assert(!p(s[k]));
    }
    lemma_leading_count_is(v, q, k);
}

/// The challenges after the status events of `block` are loaded: none are loaded under a
/// generic configuration.
pub open spec fn loaded_book(
    old: AltDAProvider,
    block: BlockNumHash,
    receipts: Seq<Receipt>,
    data: L1BlockData,
) -> ChallengeBook {
    if old.cfg.commitment_type == CommitmentType::Generic {
        book_of(old.state)
    } else {
        apply_challenge_logs(
            book_of(old.state),
            spec_challenge_logs(receipts, block, data, old.cfg.da_challenge_contract),
            block,
            data.transactions@,
            old.cfg.commitment_type,
            old.state.cfg.resolve_window,
        )
    }
}

/// Whether advancing the challenge origin to `block` with this chain data panics.
pub open spec fn advance_challenge_origin_panics(
    old: AltDAProvider,
    block: BlockNumHash,
    receipts: Option<Vec<Receipt>>,
    data: Option<L1BlockData>,
) -> bool {
    &&& block.number > old.challenge_origin.number
    &&& old.cfg.commitment_type != CommitmentType::Generic
    &&& receipts is Some
    &&& data is Some
    &&& challenge_logs_panic(
        spec_challenge_logs(
            receipts.unwrap()@,
            block,
            data.unwrap(),
            old.cfg.da_challenge_contract,
        ),
        block,
        data.unwrap().transactions@,
        old.cfg.commitment_type,
        old.state.cfg.resolve_window,
    )
}

/// A sequence panics with one more element exactly when it did or the element does.
proof fn lemma_logs_panic_push(
    s: Seq<Log>,
    x: Log,
    block: BlockNumHash,
    txs: Seq<L1Transaction>,
    kind: CommitmentType,
    resolve_window: u64,
)
    ensures
        challenge_logs_panic(s.push(x), block, txs, kind, resolve_window) == (challenge_logs_panic(
            s,
            block,
            txs,
            kind,
            resolve_window,
        ) || challenge_log_panics(x, block, txs, kind, resolve_window)),
{
    let t = s.push(x);
    if challenge_logs_panic(s, block, txs, kind, resolve_window) {
        let i = choose|i: int|
            0 <= i < s.len() && challenge_log_panics(#[trigger] s[i], block, txs, kind, resolve_window);
        assert(t[i] == s[i]);
    }
    if challenge_log_panics(x, block, txs, kind, resolve_window) {
        assert(t[s.len() as int] == x);
    }
    if challenge_logs_panic(t, block, txs, kind, resolve_window) {
        let i = choose|i: int|
            0 <= i < t.len() && challenge_log_panics(#[trigger] t[i], block, txs, kind, resolve_window);
        if i < s.len() {
            assert(s[i] == t[i]);
        }
    }
}

/// A concatenation panics exactly when one of its parts does.
proof fn lemma_logs_panic_concat(
    a: Seq<Log>,
    b: Seq<Log>,
    block: BlockNumHash,
    txs: Seq<L1Transaction>,
    kind: CommitmentType,
    resolve_window: u64,
)
    ensures
        challenge_logs_panic(a + b, block, txs, kind, resolve_window) == (challenge_logs_panic(
            a,
            block,
            txs,
            kind,
            resolve_window,
        ) || challenge_logs_panic(b, block, txs, kind, resolve_window)),
{
    let t = a + b;
    if challenge_logs_panic(a, block, txs, kind, resolve_window) {
        let i = choose|i: int|
            0 <= i < a.len() && challenge_log_panics(#[trigger] a[i], block, txs, kind, resolve_window);
        assert(t[i] == a[i]);
    }
    if challenge_logs_panic(b, block, txs, kind, resolve_window) {
        let i = choose|i: int|
            0 <= i < b.len() && challenge_log_panics(#[trigger] b[i], block, txs, kind, resolve_window);
        assert(t[a.len() + i] == b[i]);
    }
    if challenge_logs_panic(t, block, txs, kind, resolve_window) {
        let i = choose|i: int|
            0 <= i < t.len() && challenge_log_panics(#[trigger] t[i], block, txs, kind, resolve_window);
        if i < a.len() {
            assert(a[i] == t[i]);
        } else {
            assert(b[i - a.len()] == t[i]);
        }
    }
}

/// What advancing the challenge origin to `block` does: nothing where `block` is not past
/// the origin; a network error, with nothing changed, where needed chain data is missing;
/// else it loads the block's status events, expires the challenges whose resolve window
/// has passed (the leading ones) and moves the origin to `block`.
pub open spec fn advance_challenge_origin_post(
    old: AltDAProvider,
    new: AltDAProvider,
    block: BlockNumHash,
    receipts: Option<Vec<Receipt>>,
    data: Option<L1BlockData>,
    res: Result<(), AltDaError>,
) -> bool {
    let advancing = block.number > old.challenge_origin.number;
    let generic = old.cfg.commitment_type == CommitmentType::Generic;
    &&& !advancing ==> res is Ok && new == old
    &&& advancing && !generic && (receipts is None || data is None) ==> res == Err::<
        (),
        AltDaError,
    >(AltDaError::NetworkError) && new == old
    &&& advancing && (generic || (receipts is Some && data is Some)) ==> {
        let b = loaded_book(old, block, receipts.unwrap()@, data.unwrap());
        let k = leading_count(b.challenges, record_expired_by(block.number)) as int;
        &&& res is Ok
        &&& new.state.challenges@.map_values(|c: Challenge| c@) == b.challenges.skip(k)
        &&& new.state.expired_challenges@.map_values(|c: Challenge| c@)
            == old.state.expired_challenges@.map_values(|c: Challenge| c@) + b.challenges.take(
            k,
        ).map_values(|r: ChallengeRecord| expire_record(r))
        &&& new.state.challenges_map@ == b.map
        &&& new.state.commitments == old.state.commitments
        &&& new.state.expired_commitments == old.state.expired_commitments
        &&& new.state.last_pruned_commitment == old.state.last_pruned_commitment
        &&& new.state.cfg == old.state.cfg
        &&& new.challenge_origin == block
        &&& new.cfg == old.cfg
        &&& new.commitment_origin == old.commitment_origin
        &&& new.finalized_head == old.finalized_head
        &&& new.l1_finalized_head == old.l1_finalized_head
        &&& new.resetting == old.resetting
    }
}

/// What the caller does next to answer an input request.
#[derive(Debug)]
pub enum InputAction {
    /// Answer with this result.
    Return(Result<Vec<u8>, AltDaError>),
    /// Look ahead by one L1 block for challenge events; answer with the look-ahead's error,
    /// or with `ChallengePending` where it succeeds.
    LookAhead,
}

/// The answer to an input request once the storage replied, given the challenge status
/// read before the request: storage data is returned; where the storage does not have
/// the data, a challenge that is not open (or not known yet within its window) and not
/// resolved decides the error, and an open or possibly open one asks to look ahead; a
/// resolved keccak challenge answers with its resolving input.
pub open spec fn spec_get_input_action(
    p: AltDAProvider,
    comm: CommitmentView,
    block: BlockNumHash,
    status: ChallengeStatus,
    stored: Result<Seq<u8>, AltDaError>,
) -> Result<Option<Seq<u8>>, AltDaError> {
    match stored {
        Ok(d) => Ok(Some(d)),
        Err(AltDaError::NotFound) => match status {
            ChallengeStatus::Uninitialized => if p.challenge_origin.number > block.number
                + p.cfg.challenge_window {
                Err(AltDaError::MissingPastWindow)
            } else {
                Ok(None)
            },
            ChallengeStatus::Active => Ok(None),
            ChallengeStatus::Resolved => if comm.0 == CommitmentType::Generic {
                Err(AltDaError::MissingPastWindow)
            } else {
                Ok(p.state.challenges_map@[spec_challenge_key(comm, block.number)].input)
            },
            ChallengeStatus::Expired => Err(AltDaError::UnknownStatus),
        },
        Err(e) => Err(e),
    }
}

/// Storage data is answered as it is; a storage error other than `NotFound` is passed
/// through whatever the challenge status and origins are; `MissingPastWindow` and a
/// look-ahead come only from a `NotFound` reply (or, for the error, from the storage
/// giving that error itself).
pub proof fn law_get_input_action_storage(
    p: AltDAProvider,
    comm: CommitmentView,
    block: BlockNumHash,
    status: ChallengeStatus,
    stored: Result<Seq<u8>, AltDaError>,
)
    ensures
        stored matches Ok(d) ==> spec_get_input_action(p, comm, block, status, stored) == Ok::<
            Option<Seq<u8>>,
            AltDaError,
        >(Some(d)),
        stored is Err && stored != Err::<Seq<u8>, AltDaError>(AltDaError::NotFound) ==> (
        spec_get_input_action(p, comm, block, status, stored) matches Err(e) && stored == Err::<
            Seq<u8>,
            AltDaError,
        >(e)),
        spec_get_input_action(p, comm, block, status, stored) == Err::<
            Option<Seq<u8>>,
            AltDaError,
        >(AltDaError::MissingPastWindow) ==> (stored == Err::<Seq<u8>, AltDaError>(
            AltDaError::NotFound,
        ) || stored == Err::<Seq<u8>, AltDaError>(AltDaError::MissingPastWindow)),
        spec_get_input_action(p, comm, block, status, stored) == Ok::<
            Option<Seq<u8>>,
            AltDaError,
        >(None) ==> stored == Err::<Seq<u8>, AltDaError>(AltDaError::NotFound),
{
}

/// The alt-DA input fetcher's own state: its settings, its challenge state, how far it has
/// followed L1, and what it considers finalized.
#[derive(Debug)]
pub struct AltDAProvider {
    /// The settings.
    pub cfg: InputFetcherConfig,
    /// The challenge state.
    pub state: State,
    /// The L1 block up to which challenge events have been loaded.
    pub challenge_origin: BlockNumHash,
    /// The L1 block up to which commitments have been expired.
    pub commitment_origin: BlockNumHash,
    /// The L1 block of the last commitment that is final.
    pub finalized_head: BlockInfo,
    /// The last finalized L1 block.
    pub l1_finalized_head: BlockInfo,
    /// Whether the last commitment expiry asked for a reset.
    pub resetting: bool,
}

impl Clone for AltDAProvider {
    fn clone(&self) -> (res: Self)
        ensures
            same_state(res.state, self.state),
            res.cfg == self.cfg,
            res.challenge_origin == self.challenge_origin,
            res.commitment_origin == self.commitment_origin,
            res.finalized_head == self.finalized_head,
            res.l1_finalized_head == self.l1_finalized_head,
            res.resetting == self.resetting,
    {
        AltDAProvider {
            cfg: self.cfg,
            state: self.state.clone(),
            challenge_origin: self.challenge_origin,
            commitment_origin: self.commitment_origin,
            finalized_head: self.finalized_head,
            l1_finalized_head: self.l1_finalized_head,
            resetting: self.resetting,
        }
    }
}

impl AltDAProvider {
    /// A fetcher with an empty challenge state.
    pub fn new_alt_da(cfg: InputFetcherConfig) -> (res: Self)
        ensures
            res.cfg == cfg,
            res.state.cfg == cfg,
            res.state.commitments@.len() == 0,
            res.state.expired_commitments@.len() == 0,
            res.state.challenges@.len() == 0,
            res.state.expired_challenges@.len() == 0,
            res.state.challenges_map@ == Map::<Seq<char>, ChallengeRecord>::empty(),
            res.state.last_pruned_commitment is None,
            res.challenge_origin.number == 0,
            res.commitment_origin.number == 0,
            is_zero_block(res.finalized_head),
            is_zero_block(res.l1_finalized_head),
            !res.resetting,
    {
        AltDAProvider {
            cfg,
            state: State::new(cfg),
            challenge_origin: BlockNumHash::zero(),
            commitment_origin: BlockNumHash::zero(),
            finalized_head: BlockInfo::zero(),
            l1_finalized_head: BlockInfo::zero(),
            resetting: false,
        }
    }

    /// A fetcher that starts from the given challenge state.
    pub fn new_alt_da_with_state(cfg: InputFetcherConfig, state: State) -> (res: Self)
        ensures
            res.cfg == cfg,
            res.state == state,
            res.challenge_origin.number == 0,
            res.commitment_origin.number == 0,
            is_zero_block(res.finalized_head),
            is_zero_block(res.l1_finalized_head),
            !res.resetting,
    {
        AltDAProvider {
            cfg,
            state,
            challenge_origin: BlockNumHash::zero(),
            commitment_origin: BlockNumHash::zero(),
            finalized_head: BlockInfo::zero(),
            l1_finalized_head: BlockInfo::zero(),
            resetting: false,
        }
    }

    /// Records a new finalized L1 block: prunes what is final at it, and takes the
    /// inclusion block of the last pruned commitment (zero where none was ever pruned) as
    /// the finalized head.
    pub fn update_finalized_head(&mut self, l1_finalized: BlockInfo)
        ensures
            final(self).l1_finalized_head == l1_finalized,
            prune_post(old(self).state, final(self).state, l1_finalized.number),
            match final(self).state.last_pruned_commitment {
                Some(b) => final(self).finalized_head == b,
                None => is_zero_block(final(self).finalized_head),
            },
            final(self).cfg == old(self).cfg,
            final(self).challenge_origin == old(self).challenge_origin,
            final(self).commitment_origin == old(self).commitment_origin,
            final(self).resetting == old(self).resetting,
    {
        self.l1_finalized_head = l1_finalized;
        self.state.prune(l1_finalized.id());
        self.finalized_head = match self.state.last_pruned_commitment {
            Some(b) => b,
            None => BlockInfo::zero(),
        };
    }

    /// Handles a finalized L1 block and returns the alt-DA finalized head to signal.
    pub fn finalize(&mut self, l1_finalized: BlockInfo) -> (res: BlockInfo)
        ensures
            final(self).l1_finalized_head == l1_finalized,
            prune_post(old(self).state, final(self).state, l1_finalized.number),
            match final(self).state.last_pruned_commitment {
                Some(b) => final(self).finalized_head == b,
                None => is_zero_block(final(self).finalized_head),
            },
            res == final(self).finalized_head,
            final(self).cfg == old(self).cfg,
            final(self).challenge_origin == old(self).challenge_origin,
            final(self).commitment_origin == old(self).commitment_origin,
            final(self).resetting == old(self).resetting,
    {
        self.update_finalized_head(l1_finalized);
        self.finalized_head
    }

    /// The number of the L1 block to take as finalized head when no commitment is pending:
    /// the finalized L1 block less the challenge window; `None` where that is below zero.
    pub fn finalized_lookup(&self) -> (res: Option<u64>)
        ensures
            self.l1_finalized_head.number < self.cfg.challenge_window ==> res is None,
            self.l1_finalized_head.number >= self.cfg.challenge_window ==> res == Some(
                (self.l1_finalized_head.number - self.cfg.challenge_window) as u64,
            ),
    {
        if self.l1_finalized_head.number < self.cfg.challenge_window {
            None
        } else {
            Some(self.l1_finalized_head.number - self.cfg.challenge_window)
        }
    }

    /// Takes the L1 block fetched at `finalized_lookup` as finalized head; a failed fetch
    /// is a network error. Nothing happens where the lookup is below zero.
    pub fn update_finalized_from_l1(&mut self, fetched: Option<BlockInfo>) -> (res: Result<
        (),
        AltDaError,
    >)
        ensures
            old(self).l1_finalized_head.number < old(self).cfg.challenge_window ==> res is Ok
                && *final(self) == *old(self),
            old(self).l1_finalized_head.number >= old(self).cfg.challenge_window ==> match fetched {
                None => res == Err::<(), AltDaError>(AltDaError::NetworkError) && *final(self)
                    == *old(self),
                Some(b) => res is Ok && *final(self) == AltDAProvider {
                    finalized_head: b,
                    ..*old(self)
                },
            },
    {
        if self.l1_finalized_head.number < self.cfg.challenge_window {
            return Ok(());
        }
        match fetched {
            Some(b) => {
                self.finalized_head = b;
                Ok(())
            },
            None => Err(AltDaError::NetworkError),
        }
    }

    /// The number of the L1 block to look ahead to: the one after the challenge origin.
    pub fn look_ahead_target(&self) -> (res: u64)
        requires
            self.challenge_origin.number < u64::MAX,
        ensures
            res == self.challenge_origin.number + 1,
    {
        self.challenge_origin.number + 1
    }

    /// Looks ahead by one block: advances the challenge origin to the fetched block at
    /// `look_ahead_target`, with that block's chain data; a failed fetch is a network error.
    pub fn look_ahead(
        &mut self,
        fetched: Option<BlockInfo>,
        receipts: Option<Vec<Receipt>>,
        data: Option<L1BlockData>,
    ) -> (res: Result<(), AltDaError>)
        requires
            fetched matches Some(b) ==> !advance_challenge_origin_panics(
                *old(self),
                BlockNumHash { hash: b.hash, number: b.number },
                receipts,
                data,
            ),
        ensures
            match fetched {
                None => res == Err::<(), AltDaError>(AltDaError::NetworkError) && *final(self)
                    == *old(self),
                Some(b) => advance_challenge_origin_post(
                    *old(self),
                    *final(self),
                    BlockNumHash { hash: b.hash, number: b.number },
                    receipts,
                    data,
                    res,
                ),
            },
    {
        match fetched {
            Some(b) => self.advance_challenge_origin(b.id(), receipts, data),
            None => Err(AltDaError::NetworkError),
        }
    }

    /// Advances the commitment origin to `block`: expires the commitments whose window has
    /// passed and moves the origin. Where the expiry asks for a reorg, the fetcher is marked
    /// as resetting, the origin stays, and the error is returned. Nothing happens where
    /// `block` is not past the origin.
    pub fn advance_commitment_origin(&mut self, block: BlockNumHash) -> (res: Result<
        (),
        AltDaError,
    >)
        ensures
            block.number <= old(self).commitment_origin.number ==> res is Ok && *final(self)
                == *old(self),
            block.number > old(self).commitment_origin.number ==> {
                &&& expire_commitments_post(old(self).state, final(self).state, block.number, res)
                &&& final(self).commitment_origin == if res is Ok {
                    block
                } else {
                    old(self).commitment_origin
                }
                &&& final(self).resetting == (old(self).resetting || res is Err)
                &&& final(self).cfg == old(self).cfg
                &&& final(self).challenge_origin == old(self).challenge_origin
                &&& final(self).finalized_head == old(self).finalized_head
                &&& final(self).l1_finalized_head == old(self).l1_finalized_head
            },
    {
        if block.number <= self.commitment_origin.number {
            return Ok(());
        }
        if let Err(e) = self.state.expire_commitments(block) {
            self.resetting = true;
            return Err(e);
        }
        self.commitment_origin = block;
        Ok(())
    }

    /// Advances to the L1 origin `block`: the challenge origin, then the commitment origin.
    /// Where nothing is pending afterwards and the finalized L1 block is past the challenge
    /// window, the result names the L1 block to fetch and hand to
    /// `update_finalized_from_l1`.
    pub fn advance_l1_origin(
        &mut self,
        block: BlockNumHash,
        receipts: Option<Vec<Receipt>>,
        data: Option<L1BlockData>,
    ) -> (res: Result<Option<u64>, AltDaError>)
        requires
            !advance_challenge_origin_panics(*old(self), block, receipts, data),
        ensures
            exists|mid: AltDAProvider, r1: Result<(), AltDaError>|
                {
                    &&& #[trigger] advance_challenge_origin_post(
                        *old(self),
                        mid,
                        block,
                        receipts,
                        data,
                        r1,
                    )
                    &&& match r1 {
                        Err(e) => res == Err::<Option<u64>, AltDaError>(e) && *final(self) == mid,
                        Ok(_) => {
                            &&& block.number <= mid.commitment_origin.number ==> *final(self)
                                == mid
                            &&& block.number > mid.commitment_origin.number ==> {
                                &&& exists|r2: Result<(), AltDaError>|
                                    {
                                        &&& expire_commitments_post(
                                            mid.state,
                                            final(self).state,
                                            block.number,
                                            r2,
                                        )
                                        &&& (r2 matches Err(e) ==> res == Err::<
                                            Option<u64>,
                                            AltDaError,
                                        >(e))
                                        &&& final(self).commitment_origin == if r2 is Ok {
                                            block
                                        } else {
                                            mid.commitment_origin
                                        }
                                        &&& final(self).resetting == (mid.resetting
                                            || r2 is Err)
                                    }
                                &&& final(self).cfg == mid.cfg
                                &&& final(self).challenge_origin == mid.challenge_origin
                                &&& final(self).finalized_head == mid.finalized_head
                                &&& final(self).l1_finalized_head == mid.l1_finalized_head
                            }
                            &&& res is Ok ==> res == Ok::<Option<u64>, AltDaError>(
                                if final(self).state.spec_no_commitments()
                                    && final(self).l1_finalized_head.number
                                    >= final(self).cfg.challenge_window {
                                    Some(
                                        (final(self).l1_finalized_head.number
                                            - final(self).cfg.challenge_window) as u64,
                                    )
                                } else {
                                    None
                                },
                            )
                        },
                    }
                },
    {
        let ghost before = *self;
        let r1 = self.advance_challenge_origin(block, receipts, data);
        let ghost mid = *self;
        if let Err(e) = r1 {
            assert(advance_challenge_origin_post(before, mid, block, receipts, data, r1));
            return Err(e);
        }
        let r2 = self.advance_commitment_origin(block);
        if let Err(e) = r2 {
            assert(advance_challenge_origin_post(before, mid, block, receipts, data, r1));
            return Err(e);
        }
        let res = if self.state.no_commitments() {
            Ok(self.finalized_lookup())
        } else {
            Ok(None)
        };
        assert(advance_challenge_origin_post(before, mid, block, receipts, data, r1));
        res
    }

    /// Resets after an L1 reorg to `base`. Where the last commitment expiry asked for the
    /// reset, only the commitment origin moves and the commitments are forgotten; else both
    /// origins move and the whole challenge state is forgotten.
    pub fn reset(&mut self, base: BlockInfo)
        ensures
            old(self).resetting ==> {
                &&& !final(self).resetting
                &&& final(self).commitment_origin == BlockNumHash { hash: base.hash, number: base.number }
                &&& final(self).challenge_origin == old(self).challenge_origin
                &&& final(self).state.commitments@.len() == 0
                &&& final(self).state.expired_commitments@.len() == 0
                &&& final(self).state.challenges == old(self).state.challenges
                &&& final(self).state.expired_challenges == old(self).state.expired_challenges
                &&& final(self).state.challenges_map == old(self).state.challenges_map
            },
            !old(self).resetting ==> {
                &&& !final(self).resetting
                &&& final(self).commitment_origin == BlockNumHash { hash: base.hash, number: base.number }
                &&& final(self).challenge_origin == BlockNumHash { hash: base.hash, number: base.number }
                &&& final(self).state.spec_no_commitments()
                &&& final(self).state.challenges_map@ == Map::<
                    Seq<char>,
                    ChallengeRecord,
                >::empty()
            },
            final(self).state.last_pruned_commitment == old(self).state.last_pruned_commitment,
            final(self).state.cfg == old(self).state.cfg,
            final(self).cfg == old(self).cfg,
            final(self).finalized_head == old(self).finalized_head,
            final(self).l1_finalized_head == old(self).l1_finalized_head,
    {
        if self.resetting {
            self.resetting = false;
            self.commitment_origin = base.id();
            self.state.clear_commitments();
        } else {
            self.challenge_origin = base.id();
            self.commitment_origin = base.id();
            self.state.reset();
        }
    }

    /// The status with which an input request goes on: `ChallengeExpired` where the
    /// commitment is not of the configured kind or its challenge has expired; else the
    /// status of its challenge.
    pub fn get_input_status(&self, commitment: &CommitmentData, block: BlockNumHash) -> (res:
        Result<ChallengeStatus, AltDaError>)
        ensures
            commitment@.0 != self.cfg.commitment_type ==> res == Err::<
                ChallengeStatus,
                AltDaError,
            >(AltDaError::ChallengeExpired),
            commitment@.0 == self.cfg.commitment_type ==> {
                let st = spec_challenge_status(
                    self.state.challenges_map@,
                    commitment@,
                    block.number,
                );
                &&& st == ChallengeStatus::Expired ==> res == Err::<ChallengeStatus, AltDaError>(
                    AltDaError::ChallengeExpired,
                )
                &&& st != ChallengeStatus::Expired ==> res == Ok::<ChallengeStatus, AltDaError>(
                    st,
                )
            },
    {
        if self.cfg.commitment_type != commitment.commitment_type() {
            return Err(AltDaError::ChallengeExpired);
        }
        let status = self.state.get_challenge_status(commitment, block.number);
        if status == ChallengeStatus::Expired {
            return Err(AltDaError::ChallengeExpired);
        }
        Ok(status)
    }

    /// Starts tracking the requested commitment in the fetched inclusion block; a failed
    /// fetch is a network error.
    pub fn get_input_track(&mut self, commitment: &CommitmentData, fetched: Option<BlockInfo>) -> (res:
        Result<(), AltDaError>)
        requires
            fetched matches Some(b) ==> b.number + old(self).state.cfg.challenge_window
                <= u64::MAX,
        ensures
            fetched is None ==> res == Err::<(), AltDaError>(AltDaError::NetworkError)
                && *final(self) == *old(self),
            fetched matches Some(b) ==> {
                &&& res is Ok
                &&& final(self).state.commitments@.len() == old(self).state.commitments@.len()
                    + 1
                &&& final(self).state.commitments@.drop_last() == old(self).state.commitments@
                &&& final(self).state.commitments@.last().data@ == commitment@
                &&& final(self).state.commitments@.last().inclusion_block == b
                &&& final(self).state.commitments@.last().challenge_window_end == b.number + old(
                    self,
                ).state.cfg.challenge_window
                &&& final(self).state.expired_commitments == old(self).state.expired_commitments
                &&& final(self).state.challenges == old(self).state.challenges
                &&& final(self).state.expired_challenges == old(self).state.expired_challenges
                &&& final(self).state.challenges_map == old(self).state.challenges_map
                &&& final(self).state.last_pruned_commitment == old(
                    self,
                ).state.last_pruned_commitment
                &&& final(self).state.cfg == old(self).state.cfg
                &&& final(self).cfg == old(self).cfg
                &&& final(self).challenge_origin == old(self).challenge_origin
                &&& final(self).commitment_origin == old(self).commitment_origin
                &&& final(self).finalized_head == old(self).finalized_head
                &&& final(self).l1_finalized_head == old(self).l1_finalized_head
                &&& final(self).resetting == old(self).resetting
            },
    {
        match fetched {
            Some(b) => {
                self.state.track_commitment(commitment.clone(), b);
                assert(self.state.commitments@.drop_last() =~= old(self).state.commitments@);
                Ok(())
            },
            None => Err(AltDaError::NetworkError),
        }
    }

    /// Whether the challenge of `commitment` committed at `block_number` has its resolving
    /// input recorded.
    pub fn resolved_input_available(&self, commitment: &CommitmentData, block_number: u64) -> (res:
        bool)
        ensures
            res == (self.state.challenges_map@.dom().contains(
                spec_challenge_key(commitment@, block_number),
            ) && self.state.challenges_map@[spec_challenge_key(
                commitment@,
                block_number,
            )].input is Some),
    {
        match self.state.get_challenge(commitment, block_number) {
            Some(c) => c.input.is_some(),
            None => false,
        }
    }

    /// Decides the answer to an input request once the storage replied; `status` is the
    /// one `get_input_status` gave.
    pub fn get_input_finish(
        &self,
        commitment: &CommitmentData,
        block: BlockNumHash,
        status: ChallengeStatus,
        stored: Result<Vec<u8>, AltDaError>,
    ) -> (res: InputAction)
        requires
            stored == Err::<Vec<u8>, AltDaError>(AltDaError::NotFound) && status
                == ChallengeStatus::Uninitialized ==> block.number + self.cfg.challenge_window
                <= u64::MAX,
            stored == Err::<Vec<u8>, AltDaError>(AltDaError::NotFound) && status
                == ChallengeStatus::Resolved && commitment@.0 != CommitmentType::Generic ==> {
                let key = spec_challenge_key(commitment@, block.number);
                self.state.challenges_map@.dom().contains(key)
                    && self.state.challenges_map@[key].input is Some
            },
        ensures
            ({
                let stored_view = match stored {
                    Ok(d) => Ok(d@),
                    Err(e) => Err(e),
                };
                match spec_get_input_action(*self, commitment@, block, status, stored_view) {
                    Ok(Some(d)) => res matches InputAction::Return(Ok(r)) && r@ == d,
                    Ok(None) => res is LookAhead,
                    Err(e) => res matches InputAction::Return(Err(e2)) && e2 == e,
                }
            }),
            stored matches Ok(d) ==> (res matches InputAction::Return(Ok(r)) && r@ == d@),
            stored is Err && stored != Err::<Vec<u8>, AltDaError>(AltDaError::NotFound) ==> (
            res matches InputAction::Return(Err(e2)) && stored == Err::<Vec<u8>, AltDaError>(e2)),
            res matches InputAction::Return(Err(e)) && e == AltDaError::MissingPastWindow ==> (
            stored == Err::<Vec<u8>, AltDaError>(AltDaError::NotFound) || stored == Err::<
                Vec<u8>,
                AltDaError,
            >(AltDaError::MissingPastWindow)),
            res is LookAhead ==> stored == Err::<Vec<u8>, AltDaError>(AltDaError::NotFound),
    {
        match stored {
            Ok(data) => InputAction::Return(Ok(data)),
            Err(AltDaError::NotFound) => match status {
                ChallengeStatus::Uninitialized => {
                    if self.challenge_origin.number > block.number + self.cfg.challenge_window {
                        InputAction::Return(Err(AltDaError::MissingPastWindow))
                    } else {
                        InputAction::LookAhead
                    }
                },
                ChallengeStatus::Active => InputAction::LookAhead,
                ChallengeStatus::Resolved => {
                    if commitment.commitment_type() == CommitmentType::Generic {
                        InputAction::Return(Err(AltDaError::MissingPastWindow))
                    } else {
                        match self.state.get_challenge(commitment, block.number) {
                            Some(ch) => match &ch.input {
                                Some(input) => InputAction::Return(
                                    Ok(vstd::slice::slice_to_vec(input.as_slice())),
                                ),
                                None => {
                                    proof {
                                        assert(false);
                                    }
                                    InputAction::Return(Err(AltDaError::NotFound))
                                },
                            },
                            None => {
                                proof {
                                    assert(false);
                                }
                                InputAction::Return(Err(AltDaError::NotFound))
                            },
                        }
                    }
                },
                ChallengeStatus::Expired => InputAction::Return(Err(AltDaError::UnknownStatus)),
            },
            Err(e) => InputAction::Return(Err(e)),
        }
    }

    /// Applies one status event of `block` to the challenge state; `txs` are the block's
    /// transactions. Events that cannot be decoded, or whose resolving input is missing or
    /// refused, change nothing.
    pub fn process_challenge_log(&mut self, block: BlockNumHash, log: &Log, txs: &Vec<L1Transaction>)
        requires
            !challenge_log_panics(
                *log,
                block,
                txs@,
                old(self).cfg.commitment_type,
                old(self).state.cfg.resolve_window,
            ),
        ensures
            book_of(final(self).state) == apply_challenge_log(
                book_of(old(self).state),
                *log,
                block,
                txs@,
                old(self).cfg.commitment_type,
                old(self).state.cfg.resolve_window,
            ),
            final(self).state.commitments == old(self).state.commitments,
            final(self).state.expired_commitments == old(self).state.expired_commitments,
            final(self).state.expired_challenges == old(self).state.expired_challenges,
            final(self).state.last_pruned_commitment == old(self).state.last_pruned_commitment,
            final(self).state.cfg == old(self).state.cfg,
            final(self).cfg == old(self).cfg,
            final(self).challenge_origin == old(self).challenge_origin,
            final(self).commitment_origin == old(self).commitment_origin,
            final(self).finalized_head == old(self).finalized_head,
            final(self).l1_finalized_head == old(self).l1_finalized_head,
            final(self).resetting == old(self).resetting,
    {
        let (status, comm, bn) = match decode_challenge_status(log) {
            Ok(r) => r,
            Err(_) => return ,
        };
        match status {
            ChallengeStatus::Resolved => {
                let tx_index = match log.transaction_index {
                    Some(i) => i,
                    None => return ,
                };
                let tx = &txs[tx_index as usize];
                let tx_hash = match log.transaction_hash {
                    Some(h) => h,
                    None => return ,
                };
                if !bytes_equal(tx.hash.as_slice(), tx_hash.as_slice()) {
                    return ;
                }
                let input = if self.cfg.commitment_type == CommitmentType::Keccak256 {
                    match decode_resolved_input(tx.input.as_slice()) {
                        Ok(input) => {
                            if comm.verify(input.as_slice()).is_err() {
                                return ;
                            }
                            Some(input)
                        },
                        Err(_) => return ,
                    }
                } else {
                    None
                };
                let input = match input {
                    Some(i) => i,
                    None => {
                        proof {
                            assert(false);
                        }
                        return ;
                    },
                };
                let _ = self.state.resolve_challenge(&comm, bn, input);
            },
            ChallengeStatus::Active => {
                let ghost old_state = self.state;
                self.state.create_challenge(comm, block, bn);
                proof {
                    assert(book_of(self.state).challenges =~= book_of(old_state).challenges.push(
                        new_challenge_record(comm@, bn, block, old_state.cfg.resolve_window),
                    )) by {
                        assert(self.state.challenges@.drop_last() == old_state.challenges@);
                        assert forall|i: int|
                            0 <= i < old_state.challenges@.len() implies self.state.challenges@[i]
                            == old_state.challenges@[i] by {
                            assert(self.state.challenges@.drop_last()[i]
                                == self.state.challenges@[i]);
                        }
                    }
                }
            },
            _ => {},
        }
    }

    /// Applies the status events `logs` of `block`, in order.
    pub fn load_challenge_events(
        &mut self,
        block: BlockNumHash,
        logs: &Vec<Log>,
        txs: &Vec<L1Transaction>,
    )
        requires
            !challenge_logs_panic(
                logs@,
                block,
                txs@,
                old(self).cfg.commitment_type,
                old(self).state.cfg.resolve_window,
            ),
        ensures
            book_of(final(self).state) == apply_challenge_logs(
                book_of(old(self).state),
                logs@,
                block,
                txs@,
                old(self).cfg.commitment_type,
                old(self).state.cfg.resolve_window,
            ),
            final(self).state.commitments == old(self).state.commitments,
            final(self).state.expired_commitments == old(self).state.expired_commitments,
            final(self).state.expired_challenges == old(self).state.expired_challenges,
            final(self).state.last_pruned_commitment == old(self).state.last_pruned_commitment,
            final(self).state.cfg == old(self).state.cfg,
            final(self).cfg == old(self).cfg,
            final(self).challenge_origin == old(self).challenge_origin,
            final(self).commitment_origin == old(self).commitment_origin,
            final(self).finalized_head == old(self).finalized_head,
            final(self).l1_finalized_head == old(self).l1_finalized_head,
            final(self).resetting == old(self).resetting,
    {
        let mut i: usize = 0;
        while i < logs.len()
            invariant
                i <= logs@.len(),
                !challenge_logs_panic(
                    logs@,
                    block,
                    txs@,
                    old(self).cfg.commitment_type,
                    old(self).state.cfg.resolve_window,
                ),
                book_of(self.state) == apply_challenge_logs(
                    book_of(old(self).state),
                    logs@.take(i as int),
                    block,
                    txs@,
                    old(self).cfg.commitment_type,
                    old(self).state.cfg.resolve_window,
                ),
                self.state.commitments == old(self).state.commitments,
                self.state.expired_commitments == old(self).state.expired_commitments,
                self.state.expired_challenges == old(self).state.expired_challenges,
                self.state.last_pruned_commitment == old(self).state.last_pruned_commitment,
                self.state.cfg == old(self).state.cfg,
                self.cfg == old(self).cfg,
                self.challenge_origin == old(self).challenge_origin,
                self.commitment_origin == old(self).commitment_origin,
                self.finalized_head == old(self).finalized_head,
                self.l1_finalized_head == old(self).l1_finalized_head,
                self.resetting == old(self).resetting,
            decreases logs@.len() - i,
        {
            proof {
                assert(logs@.take(i + 1).drop_last() =~= logs@.take(i as int));
                assert(logs@.take(i + 1).last() == logs@[i as int]);
                if challenge_log_panics(
                    logs@[i as int],
                    block,
                    txs@,
                    self.cfg.commitment_type,
                    self.state.cfg.resolve_window,
                ) {
                    assert(challenge_logs_panic(
                        logs@,
                        block,
                        txs@,
                        self.cfg.commitment_type,
                        self.state.cfg.resolve_window,
                    ));
                }
            }
            self.process_challenge_log(block, &logs[i], txs);
            i = i + 1;
        }
        proof {
            assert(logs@.take(i as int) =~= logs@);
        }
    }

    /// Whether processing the event `e`, the `j`th of the `i`th receipt of `data`, panics.
    pub fn placed_log_would_panic(
        &self,
        block: BlockNumHash,
        e: &LogEntry,
        data: &L1BlockData,
        i: usize,
        j: usize,
    ) -> (res: bool)
        requires
            i < data.transactions@.len(),
        ensures
            res == challenge_log_panics(
                placed_log(*e, i as int, j as int, block, *data),
                block,
                data.transactions@,
                self.cfg.commitment_type,
                self.state.cfg.resolve_window,
            ),
    {
        if challenge_event_block_number_too_large(e) {
            return true;
        }
        match decode_challenge_status_entry(e) {
            Ok((ChallengeStatus::Resolved, _, _)) => {
                let tx = &data.transactions[i];
                if self.cfg.commitment_type == CommitmentType::Keccak256 {
                    resolved_input_would_panic(tx.input.as_slice())
                } else {
                    true
                }
            },
            Ok((ChallengeStatus::Active, _, _)) => {
                block.number > u64::MAX - self.state.cfg.resolve_window
            },
            _ => false,
        }
    }

    /// Whether processing the status events of a block panics.
    pub fn challenge_logs_would_panic(
        &self,
        block: BlockNumHash,
        receipts: &Vec<Receipt>,
        data: &L1BlockData,
    ) -> (res: bool)
        ensures
            res == challenge_logs_panic(
                spec_challenge_logs(receipts@, block, *data, self.cfg.da_challenge_contract),
                block,
                data.transactions@,
                self.cfg.commitment_type,
                self.state.cfg.resolve_window,
            ),
    {
        let ghost txs = data.transactions@;
        let ghost kind = self.cfg.commitment_type;
        let ghost rw = self.state.cfg.resolve_window;
        let ghost contract = self.cfg.da_challenge_contract;
        let n: usize = if receipts.len() < data.transactions.len() {
            receipts.len()
        } else {
            data.transactions.len()
        };
        let signature = challenge_event_signature_hash();
        let mut found = false;
        let mut i: usize = 0;
        while i < n
            invariant
                n <= receipts@.len(),
                n <= txs.len(),
                txs == data.transactions@,
                kind == self.cfg.commitment_type,
                rw == self.state.cfg.resolve_window,
                contract == self.cfg.da_challenge_contract,
                i <= n,
                signature@ == challenge_event_signature(),
                found == challenge_logs_panic(
                    challenge_logs_upto(receipts@, i as nat, block, *data, contract),
                    block,
                    txs,
                    kind,
                    rw,
                ),
            decreases n - i,
        {
            let entries = &receipts[i].logs;
            let ghost before = challenge_logs_upto(receipts@, i as nat, block, *data, contract);
            let mut j: usize = 0;
            while j < entries.len()
                invariant
                    j <= entries@.len(),
                    entries == receipts@[i as int].logs,
                    i < n,
                    n <= txs.len(),
                    txs == data.transactions@,
                    kind == self.cfg.commitment_type,
                    rw == self.state.cfg.resolve_window,
                    contract == self.cfg.da_challenge_contract,
                    signature@ == challenge_event_signature(),
                    found == challenge_logs_panic(
                        before + receipt_challenge_logs(
                            entries@,
                            j as nat,
                            i as int,
                            block,
                            *data,
                            contract,
                        ),
                        block,
                        txs,
                        kind,
                        rw,
                    ),
                decreases entries@.len() - j,
            {
                let e = &entries[j];
                let matches = bytes_equal(
                    e.address.as_slice(),
                    self.cfg.da_challenge_contract.as_slice(),
                ) && e.topics.len() > 0 && bytes_equal(
                    e.topics[0].as_slice(),
                    signature.as_slice(),
                );
                let ghost prev = receipt_challenge_logs(
                    entries@,
                    j as nat,
                    i as int,
                    block,
                    *data,
                    contract,
                );
                if matches {
                    let p = self.placed_log_would_panic(block, e, data, i, j);
                    proof {
                        lemma_logs_panic_push(
                            before + prev,
                            placed_log(*e, i as int, j as int, block, *data),
                            block,
                            txs,
                            kind,
                            rw,
                        );
                        assert(before + prev.push(placed_log(*e, i as int, j as int, block, *data))
                            =~= (before + prev).push(
                            placed_log(*e, i as int, j as int, block, *data),
                        ));
                    }
                    found = found || p;
                }
                j = j + 1;
            }
            proof {
                lemma_logs_panic_concat(
                    before,
                    receipt_challenge_logs(
                        entries@,
                        entries@.len(),
                        i as int,
                        block,
                        *data,
                        contract,
                    ),
                    block,
                    txs,
                    kind,
                    rw,
                );
                lemma_logs_panic_concat(
                    before,
                    receipt_challenge_logs(
                        entries@,
                        j as nat,
                        i as int,
                        block,
                        *data,
                        contract,
                    ),
                    block,
                    txs,
                    kind,
                    rw,
                );
            }
            i = i + 1;
        }
        found
    }

    /// Whether advancing the challenge origin to `block` reads the block's receipts and
    /// transactions: only where `block` is past the origin under a keccak configuration.
    pub fn needs_chain_data(&self, block: BlockNumHash) -> (res: bool)
        ensures
            res == (block.number > self.challenge_origin.number && self.cfg.commitment_type
                != CommitmentType::Generic),
    {
        block.number > self.challenge_origin.number && self.cfg.commitment_type
            != CommitmentType::Generic
    }

    /// Whether advancing the challenge origin with this chain data panics.
    pub fn advance_challenge_origin_would_panic(
        &self,
        block: BlockNumHash,
        receipts: &Option<Vec<Receipt>>,
        data: &Option<L1BlockData>,
    ) -> (res: bool)
        ensures
            res == advance_challenge_origin_panics(*self, block, *receipts, *data),
    {
        if block.number <= self.challenge_origin.number
            || self.cfg.commitment_type == CommitmentType::Generic {
            return false;
        }
        match (receipts, data) {
            (Some(r), Some(d)) => self.challenge_logs_would_panic(block, r, d),
            _ => false,
        }
    }

    /// Advances the challenge origin where that does not panic; `None`, with nothing
    /// changed, on the inputs on which it panics.
    pub fn checked_advance_challenge_origin(
        &mut self,
        block: BlockNumHash,
        receipts: Option<Vec<Receipt>>,
        data: Option<L1BlockData>,
    ) -> (res: Option<Result<(), AltDaError>>)
        ensures
            res is None <==> advance_challenge_origin_panics(*old(self), block, receipts, data),
            res is None ==> *final(self) == *old(self),
            res matches Some(r) ==> advance_challenge_origin_post(
                *old(self),
                *final(self),
                block,
                receipts,
                data,
                r,
            ),
    {
        if self.advance_challenge_origin_would_panic(block, &receipts, &data) {
            return None;
        }
        Some(self.advance_challenge_origin(block, receipts, data))
    }

    /// Advances the challenge origin to `block`: loads the block's status events (from its
    /// receipts and transactions, which the caller fetched), expires the challenges whose
    /// resolve window has passed, and moves the origin. Nothing happens where `block` is
    /// not past the origin; a missing fetch result is a network error.
    pub fn advance_challenge_origin(
        &mut self,
        block: BlockNumHash,
        receipts: Option<Vec<Receipt>>,
        data: Option<L1BlockData>,
    ) -> (res: Result<(), AltDaError>)
        requires
            !advance_challenge_origin_panics(*old(self), block, receipts, data),
        ensures
            advance_challenge_origin_post(*old(self), *final(self), block, receipts, data, res),
    {
        if block.number <= self.challenge_origin.number {
            return Ok(());
        }
        let ghost before = *self;
        let logs = match fetch_challenge_logs(&self.cfg, block, receipts, &data) {
            Ok(l) => l,
            Err(e) => return Err(e),
        };
        if let Some(d) = &data {
            self.load_challenge_events(block, &logs, &d.transactions);
        }
        let ghost loaded = self.state;
        self.state.expire_challenges(block);
        self.challenge_origin = block;
        proof {
            lemma_leading_count_views(loaded.challenges@, block.number);
            let k = leading_count(loaded.challenges@, challenge_expired_by(block.number)) as int;
            lemma_leading_count(loaded.challenges@, challenge_expired_by(block.number));
            assert forall|c: Challenge| #[trigger] expire_status(c)@ == expire_record(c@) by {
                assert(expire_status(c)@ =~= expire_record(c@));
            }
            assert(self.state.challenges@.map_values(|c: Challenge| c@) =~= loaded.challenges@.map_values(
                |c: Challenge| c@,
            ).skip(k));
            assert(self.state.expired_challenges@.map_values(|c: Challenge| c@) =~= before.state.expired_challenges@.map_values(
                |c: Challenge| c@,
            ) + loaded.challenges@.map_values(|c: Challenge| c@).take(k).map_values(
                |r: ChallengeRecord| expire_record(r),
            ));
        }
        Ok(())
    }
}

} // verus!
