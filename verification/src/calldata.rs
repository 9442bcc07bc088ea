//! The calldata source: which transactions of a block carry batcher data.

use vstd::prelude::*;
use crate::primitives::{bytes_equal, hex_encode, spec_hex_lower};
use crate::source::{PipelineError, PipelineErrorKind};
use crate::types::BlockInfo;

verus! {

/// What the calldata source reads of an L1 transaction.
#[derive(Debug)]
pub struct CalldataTx {
    /// Whether the transaction is of a kind that carries batcher calldata (legacy,
    /// EIP-2930 or EIP-1559).
    pub supported: bool,
    /// The called address; `None` for a contract creation.
    pub to: Option<[u8; 20]>,
    /// The recovered sender; `None` where recovery failed.
    pub signer: Option<[u8; 20]>,
    /// The calldata.
    pub input: Vec<u8>,
}

/// Whether a transaction is batcher data: of a supported kind, sent to the inbox by the
/// batcher.
pub open spec fn is_batcher_tx(tx: CalldataTx, inbox: [u8; 20], signer: [u8; 20]) -> bool {
    &&& tx.supported
    &&& tx.to matches Some(t) && t@ == inbox@
    &&& tx.signer matches Some(s) && s@ == signer@
}

/// The calldata of the batcher transactions among the first `count`, in order.
pub open spec fn spec_batcher_calldata(
    txs: Seq<CalldataTx>,
    count: nat,
    inbox: [u8; 20],
    signer: [u8; 20],
) -> Seq<Seq<u8>>
    decreases count,
{
    if count == 0 {
        Seq::empty()
    } else {
        let prev = spec_batcher_calldata(txs, (count - 1) as nat, inbox, signer);
        let tx = txs[count - 1];
        if is_batcher_tx(tx, inbox, signer) {
            prev.push(tx.input@)
        } else {
            prev
        }
    }
}

/// The calldata of a transaction of a supported kind sent to the inbox by the batcher, or
/// `None` for any other transaction.
pub open spec fn batcher_input(tx: CalldataTx, inbox: [u8; 20], signer: [u8; 20]) -> Option<Seq<u8>> {
    if tx.supported && (tx.to matches Some(t) && t@ == inbox@) && (tx.signer matches Some(
        a,
    ) && a@ == signer@) {
        Some(tx.input@)
    } else {
        None
    }
}

/// The batcher calldata of the first `count` transactions is the calldata of every batcher
/// transaction among them, unchanged and in order, whatever its bytes; no other
/// transaction contributes.
pub proof fn law_batcher_calldata_is_every_batcher_tx(
    txs: Seq<CalldataTx>,
    count: nat,
    inbox: [u8; 20],
    signer: [u8; 20],
)
    requires
        count <= txs.len(),
    ensures
        spec_batcher_calldata(txs, count, inbox, signer) == txs.take(count as int).filter_map(
            |tx: CalldataTx| batcher_input(tx, inbox, signer),
        ),
    decreases count,
{
    let f = |tx: CalldataTx| batcher_input(tx, inbox, signer);
    let t = txs.take(count as int);
    if count == 0 {
        assert(t =~= Seq::<CalldataTx>::empty());
    } else {
        law_batcher_calldata_is_every_batcher_tx(txs, (count - 1) as nat, inbox, signer);
        assert(t.drop_last() =~= txs.take(count - 1));
        assert(t.last() == txs[count - 1]);
        let prev = txs.take(count - 1).filter_map(f);
        if is_batcher_tx(txs[count - 1], inbox, signer) {
            assert(prev.push(txs[count - 1].input@) =~= prev + seq![txs[count - 1].input@]);
        }
    }
}

/// The inputs on which loading calldata panics: a batcher transaction with empty calldata,
/// or one whose calldata starts with `0xce` (a Celestia pointer, whose height the loader
/// reads as eight bytes from a 64-byte slice).
pub open spec fn calldata_load_panics(txs: Seq<CalldataTx>, inbox: [u8; 20], signer: [u8; 20]) -> bool {
    exists|i: int|
        0 <= i < txs.len() && is_batcher_tx(#[trigger] txs[i], inbox, signer) && (
        txs[i].input@.len() == 0 || txs[i].input@[0] == 0xce)
}

/// The message of a failed load.
pub open spec fn load_failure_message(block: BlockInfo) -> Seq<char> {
    "Failed to load calldata for block 0x"@ + spec_hex_lower(block.hash@)
}

/// A data iterator over the batcher calldata of one L1 block.
#[derive(Debug)]
pub struct CalldataSource {
    /// The batch inbox address.
    pub batch_inbox_address: [u8; 20],
    /// The L1 block.
    pub block_ref: BlockInfo,
    /// The batcher's address.
    pub signer: [u8; 20],
    /// The calldata not yet handed out, in order.
    pub calldata: Vec<Vec<u8>>,
    /// Whether the block's transactions were loaded.
    pub open: bool,
}

impl CalldataSource {
    /// A source for `block_ref` that has not loaded anything yet.
    pub fn new(batch_inbox_address: [u8; 20], block_ref: BlockInfo, signer: [u8; 20]) -> (res: Self)
        ensures
            res.batch_inbox_address == batch_inbox_address,
            res.block_ref == block_ref,
            res.signer == signer,
            res.calldata@.len() == 0,
            !res.open,
    {
        CalldataSource { batch_inbox_address, block_ref, signer, calldata: Vec::new(), open: false }
    }

    /// Whether loading these transactions panics: one of the batcher transactions has
    /// empty calldata or calldata that starts with `0xce`.
    pub fn calldata_load_would_panic(&self, txs: &Vec<CalldataTx>) -> (res: bool)
        ensures
            res == calldata_load_panics(txs@, self.batch_inbox_address, self.signer),
    {
        let mut i: usize = 0;
        while i < txs.len()
            invariant
                i <= txs@.len(),
                forall|j: int|
                    0 <= j < i && is_batcher_tx(#[trigger] txs@[j], self.batch_inbox_address, self.signer)
                        ==> txs@[j].input@.len() > 0 && txs@[j].input@[0] != 0xce,
            decreases txs@.len() - i,
        {
            let tx = &txs[i];
            let selected = tx.supported && match tx.to {
                Some(t) => bytes_equal(t.as_slice(), self.batch_inbox_address.as_slice()),
                None => false,
            } && match tx.signer {
                Some(s) => bytes_equal(s.as_slice(), self.signer.as_slice()),
                None => false,
            };
            if selected && (tx.input.len() == 0 || tx.input[0] == 0xce) {
                return true;
            }
            i = i + 1;
        }
        false
    }

    /// Loads the block's batcher calldata from its fetched transactions (`None` where the
    /// fetch failed, an error). Nothing happens once the source is open.
    pub fn load_calldata(&mut self, txs: Option<Vec<CalldataTx>>) -> (res: Result<(), ()>)
        requires
            !old(self).open && txs is Some ==> !calldata_load_panics(
                txs.unwrap()@,
                old(self).batch_inbox_address,
                old(self).signer,
            ),
        ensures
            old(self).open ==> res is Ok && *final(self) == *old(self),
            !old(self).open && txs is None ==> res is Err && *final(self) == *old(self),
            !old(self).open && txs is Some ==> {
                &&& res is Ok
                &&& final(self).open
                &&& final(self).calldata@.map_values(|d: Vec<u8>| d@) == spec_batcher_calldata(
                    txs.unwrap()@,
                    txs.unwrap()@.len(),
                    old(self).batch_inbox_address,
                    old(self).signer,
                )
                &&& final(self).calldata@.map_values(|d: Vec<u8>| d@) == txs.unwrap()@.filter_map(
                    |tx: CalldataTx| batcher_input(tx, old(self).batch_inbox_address, old(self).signer),
                )
                &&& final(self).batch_inbox_address == old(self).batch_inbox_address
                &&& final(self).block_ref == old(self).block_ref
                &&& final(self).signer == old(self).signer
            },
    {
        if self.open {
            return Ok(());
        }
        let txs = match txs {
            Some(t) => t,
            None => return Err(()),
        };
        let ghost all = txs@;
        let mut txs = txs;
        let mut results: Vec<Vec<u8>> = Vec::new();
        let mut i: usize = 0;
        let total = txs.len();
        while txs.len() > 0
            invariant
                total == all.len(),
                i <= all.len(),
                txs@ == all.skip(i as int),
                !calldata_load_panics(all, self.batch_inbox_address, self.signer),
                results@.map_values(|d: Vec<u8>| d@) == spec_batcher_calldata(
                    all,
                    i as nat,
                    self.batch_inbox_address,
                    self.signer,
                ),
            decreases txs@.len(),
        {
            let tx = txs.remove(0);
            assert(tx == all[i as int]);
            let selected = tx.supported && match tx.to {
                Some(t) => bytes_equal(t.as_slice(), self.batch_inbox_address.as_slice()),
                None => false,
            } && match tx.signer {
                Some(s) => bytes_equal(s.as_slice(), self.signer.as_slice()),
                None => false,
            };
            let ghost prev = results@;
            if selected {
                assert(is_batcher_tx(all[i as int], self.batch_inbox_address, self.signer));
                let data = tx.input;
                assert(data@.len() > 0 && data@[0] != 0xce);
                results.push(data);
                assert(results@.map_values(|d: Vec<u8>| d@) =~= prev.map_values(
                    |d: Vec<u8>| d@,
                ).push(all[i as int].input@));
            }
            proof {
                assert(txs@ =~= all.skip(i + 1));
            }
            i = i + 1;
        }
        proof {
            assert(all.skip(i as int).len() == 0);
            law_batcher_calldata_is_every_batcher_tx(all, all.len(), self.batch_inbox_address, self.signer);
            assert(all.take(all.len() as int) =~= all);
        }
        self.calldata = results;
        self.open = true;
        Ok(())
    }

    /// Hands out the next batcher calldata, loading the block first (from its fetched
    /// transactions) where it is not open yet. A failed load is a temporary provider error
    /// naming the block; an exhausted source is a temporary end of data.
    pub fn next(&mut self, txs: Option<Vec<CalldataTx>>) -> (res: Result<Vec<u8>, PipelineErrorKind>)
        requires
            !old(self).open && txs is Some ==> !calldata_load_panics(
                txs.unwrap()@,
                old(self).batch_inbox_address,
                old(self).signer,
            ),
        ensures
            !old(self).open && txs is None ==> (res matches Err(
                PipelineErrorKind::Temporary(PipelineError::Provider(m)),
            ) && m@ == load_failure_message(old(self).block_ref)) && *final(self) == *old(self),
            old(self).open || txs is Some ==> {
                let loaded = if old(self).open {
                    old(self).calldata@.map_values(|d: Vec<u8>| d@)
                } else {
                    spec_batcher_calldata(
                        txs.unwrap()@,
                        txs.unwrap()@.len(),
                        old(self).batch_inbox_address,
                        old(self).signer,
                    )
                };
                &&& final(self).open
                &&& loaded.len() == 0 ==> (res matches Err(
                    PipelineErrorKind::Temporary(PipelineError::Eof),
                ) && final(self).calldata@.len() == 0)
                &&& loaded.len() > 0 ==> ((res matches Ok(d) && d@ == loaded[0])
                    && final(self).calldata@.map_values(|d: Vec<u8>| d@) == loaded.drop_first())
                &&& final(self).block_ref == old(self).block_ref
            },
    {
        if self.load_calldata(txs).is_err() {
            let prefix = String::from_str("Failed to load calldata for block 0x");
            let hash = hex_encode(self.block_ref.hash.as_slice());
            let message = prefix.concat(hash.as_str());
            proof {
                reveal_strlit("Failed to load calldata for block 0x");
            }
            return Err(PipelineErrorKind::Temporary(PipelineError::Provider(message)));
        }
        if self.calldata.len() == 0 {
            return Err(PipelineErrorKind::Temporary(PipelineError::Eof));
        }
        let ghost before = self.calldata@;
        let first = self.calldata.remove(0);
        assert(self.calldata@.map_values(|d: Vec<u8>| d@) =~= before.map_values(
            |d: Vec<u8>| d@,
        ).drop_first());
        Ok(first)
    }
}

} // verus!
