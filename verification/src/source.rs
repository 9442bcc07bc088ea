//! The alt-DA data source: the decisions it takes between pulling batcher data, advancing
//! the input fetcher and fetching inputs. The caller makes those calls and hands their
//! results in.

use vstd::prelude::*;
use vstd::string::StringSliceAdditionalSpecFns;
use crate::commitment::{
    commitment_wf, decode_commitment_data, lemma_decode_encode, spec_decode_commitment,
    spec_encode, spec_tx_data, CommitmentData, CommitmentView,
};
use crate::primitives::{hex_encode, lemma_hex_lower_ascii, spec_hex_lower};
use crate::types::{error_message, AltDaError, BlockInfo, BlockNumHash, MAX_INPUT_SIZE, TX_DATA_VERSION_1};

verus! {

/// Why the pipeline must reset.
#[derive(Debug, Clone, Copy, PartialEq, Eq, Structural)]
pub enum ResetError {
    /// A challenge of a commitment that was already derived expired.
    NewExpiredChallenge,
}

/// A pipeline error.
#[derive(Debug)]
pub enum PipelineError {
    /// Not enough data to go on.
    NotEnoughData,
    /// Advancing the alt-DA input fetcher failed, with the error's message.
    AltDaAdvanceFailed(String),
    /// No data was found for a commitment, given as text.
    CommitmentDataEmpty(String),
    /// The source has no more data.
    Eof,
    /// The chain provider failed, with a message.
    Provider(String),
}

/// A pipeline error with its severity.
#[derive(Debug)]
pub enum PipelineErrorKind {
    /// Retrying may succeed.
    Temporary(PipelineError),
    /// Retrying cannot succeed.
    Critical(PipelineError),
    /// The pipeline must reset.
    Reset(ResetError),
}

/// What the data source does next.
#[derive(Debug)]
pub enum SourceStep {
    /// Answer the pull with this result.
    Stop(Result<Vec<u8>, PipelineErrorKind>),
    /// Fetch the input of the pending commitment and hand it to `on_input`.
    FetchInput,
    /// Start the pull over.
    Restart,
}

/// The kind of source a block's batcher data is read from.
#[derive(Debug, Clone, Copy, PartialEq, Eq, Structural)]
pub enum DataSourceKind {
    /// Blob transactions (after the Ecotone upgrade).
    Blob,
    /// Calldata.
    Calldata,
}

/// Which source reads the batcher data of a block: blobs once the block's timestamp has
/// reached the Ecotone activation time, calldata before it or where no activation time
/// is set.
pub fn select_data_source(ecotone_timestamp: Option<u64>, block_ref: &BlockInfo) -> (res:
    DataSourceKind)
    ensures
        res == match ecotone_timestamp {
            Some(e) => if block_ref.timestamp >= e {
                DataSourceKind::Blob
            } else {
                DataSourceKind::Calldata
            },
            None => DataSourceKind::Calldata,
        },
{
    let ecotone_enabled = match ecotone_timestamp {
        Some(e) => block_ref.timestamp >= e,
        None => false,
    };
    if ecotone_enabled {
        DataSourceKind::Blob
    } else {
        DataSourceKind::Calldata
    }
}

/// The batcher tx data of a commitment is read back by the data source as that same
/// commitment: it starts with the alt-DA version byte and the rest decodes to the
/// commitment.
pub proof fn law_tx_data_reads_back(c: CommitmentView)
    requires
        commitment_wf(c),
    ensures
        spec_tx_data(c)[0] == TX_DATA_VERSION_1,
        spec_decode_commitment(spec_tx_data(c).drop_first()) == Some(c),
{
    assert(spec_tx_data(c).drop_first() =~= spec_encode(c));
    lemma_decode_encode(c);
}

/// How one step of a pull ends, with the output bytes where it gives some.
pub enum StepOutcome {
    /// The pull answers with these bytes.
    Output(Seq<u8>),
    /// The pull answers with an error.
    Failed,
    /// The pending commitment's input is fetched next.
    FetchInput,
    /// The pull starts over.
    Restart,
}

/// The outcome of a step.
pub open spec fn step_outcome(step: SourceStep) -> StepOutcome {
    match step {
        SourceStep::Stop(Ok(d)) => StepOutcome::Output(d@),
        SourceStep::Stop(Err(_)) => StepOutcome::Failed,
        SourceStep::FetchInput => StepOutcome::FetchInput,
        SourceStep::Restart => StepOutcome::Restart,
    }
}

/// Batcher data as bytes.
pub open spec fn data_view(data: Option<Vec<u8>>) -> Option<Seq<u8>> {
    match data {
        Some(d) => Some(d@),
        None => None,
    }
}

/// An input fetcher's answer as bytes.
pub open spec fn input_view(input: Result<Vec<u8>, AltDaError>) -> Result<Seq<u8>, AltDaError> {
    match input {
        Ok(d) => Ok(d@),
        Err(e) => Err(e),
    }
}

/// How taking batcher data ends: missing, empty or undecodable alt-DA data fails; data
/// that is not alt-DA tx data is the output; a commitment is fetched next.
pub open spec fn source_data_outcome(data: Option<Seq<u8>>) -> StepOutcome {
    match data {
        None => StepOutcome::Failed,
        Some(d) => if d.len() == 0 {
            StepOutcome::Failed
        } else if d[0] != TX_DATA_VERSION_1 {
            StepOutcome::Output(d)
        } else {
            match spec_decode_commitment(d.drop_first()) {
                None => StepOutcome::Failed,
                Some(_) => StepOutcome::FetchInput,
            }
        },
    }
}

/// How taking an input ends: data within the size limit is the output; oversized data
/// and an expired challenge start the pull over; any other failure fails.
pub open spec fn input_outcome(input: Result<Seq<u8>, AltDaError>) -> StepOutcome {
    match input {
        Ok(d) => if d.len() > MAX_INPUT_SIZE {
            StepOutcome::Restart
        } else {
            StepOutcome::Output(d)
        },
        Err(AltDaError::ChallengeExpired) => StepOutcome::Restart,
        Err(_) => StepOutcome::Failed,
    }
}

/// Whether the pending commitment stays after taking an input: on every failure but an
/// expired challenge.
pub open spec fn input_keeps_commitment(input: Result<Seq<u8>, AltDaError>) -> bool {
    &&& input is Err
    &&& input != Err::<Seq<u8>, AltDaError>(AltDaError::ChallengeExpired)
}

/// What the outside calls answer in one round of a pull: whether advancing the input
/// fetcher succeeded, the batcher data read (used only with no pending commitment), and
/// the input fetched for the commitment.
pub struct PullRound {
    /// Advancing the input fetcher to the block succeeded.
    pub advanced: bool,
    /// The batcher data pulled from the L1 source.
    pub data: Option<Seq<u8>>,
    /// The input fetcher's answer for the pending commitment.
    pub input: Result<Seq<u8>, AltDaError>,
}

/// What a pull gives, from whether a commitment is pending and the answers of its rounds:
/// each round advances the input fetcher (`on_advance`), reads batcher data where no
/// commitment is pending (`on_source_data`), then takes the commitment's input
/// (`on_input`); a round that starts over goes on with the next round and no pending
/// commitment. Also whether a commitment is pending afterwards. Where the rounds run out
/// first, the outcome is `Restart`.
pub open spec fn pull_outcome(pending: bool, rounds: Seq<PullRound>) -> (StepOutcome, bool)
    decreases rounds.len(),
{
    if rounds.len() == 0 {
        (StepOutcome::Restart, pending)
    } else {
        let r = rounds[0];
        if !r.advanced {
            (StepOutcome::Failed, pending)
        } else {
            let read = if pending {
                StepOutcome::FetchInput
            } else {
                source_data_outcome(r.data)
            };
            match read {
                StepOutcome::FetchInput => match input_outcome(r.input) {
                    StepOutcome::Restart => pull_outcome(false, rounds.drop_first()),
                    o => (o, input_keeps_commitment(r.input)),
                },
                o => (o, false),
            }
        }
    }
}

/// Whether `d` is batcher data read in one of the rounds that is not alt-DA tx data.
pub open spec fn forwarded_in(d: Seq<u8>, rounds: Seq<PullRound>) -> bool {
    exists|j: int|
        0 <= j < rounds.len() && #[trigger] rounds[j].data == Some(d) && d.len() > 0 && d[0]
            != TX_DATA_VERSION_1
}

/// Every pull answers with data within the size limit, or with batcher data of one of its
/// rounds that is not alt-DA tx data, forwarded unchanged; after an answer with data no
/// commitment is pending. A commitment whose input is oversized or whose challenge expired
/// is dropped and its batch skipped: the pull goes on with the next batcher data.
pub proof fn law_pull_outputs(pending: bool, rounds: Seq<PullRound>)
    ensures
        pull_outcome(pending, rounds).0 matches StepOutcome::Output(d) ==> (d.len()
            <= MAX_INPUT_SIZE || forwarded_in(d, rounds)),
        pull_outcome(pending, rounds).0 is Output ==> !pull_outcome(pending, rounds).1,
        rounds.len() > 0 && rounds[0].advanced && (pending || source_data_outcome(
            rounds[0].data,
        ) is FetchInput) && (rounds[0].input matches Ok(d) && d.len() > MAX_INPUT_SIZE
            || rounds[0].input == Err::<Seq<u8>, AltDaError>(AltDaError::ChallengeExpired))
            ==> pull_outcome(pending, rounds) == pull_outcome(false, rounds.drop_first()),
    decreases rounds.len(),
{
    if rounds.len() > 0 && rounds[0].advanced {
        let rest = rounds.drop_first();
        law_pull_outputs(false, rest);
        if let StepOutcome::Output(d) = pull_outcome(false, rest).0 {
            if forwarded_in(d, rest) {
                let j = choose|j: int|
                    0 <= j < rest.len() && #[trigger] rest[j].data == Some(d) && d.len() > 0
                        && d[0] != TX_DATA_VERSION_1;
                assert(rounds[j + 1].data == Some(d));
            }
        }
        if !pending {
            if let StepOutcome::Output(d) = source_data_outcome(rounds[0].data) {
                assert(rounds[0].data == Some(d));
            }
        }
    }
}

/// The alt-DA data iterator of one L1 block.
#[derive(Debug)]
pub struct AltDaSource {
    /// The commitment whose input is still being fetched, where there is one.
    pub commitment: Option<CommitmentData>,
    /// The L1 block.
    pub id: BlockNumHash,
}

/// The text of an error's message.
fn message_string(e: AltDaError) -> (res: String)
    ensures
        res@ == error_message(e),
{
    String::from_str(e.message())
}

impl AltDaSource {
    /// A source for the L1 block `id`, with no pending commitment.
    pub fn new(id: BlockNumHash) -> (res: Self)
        ensures
            res.commitment is None,
            res.id == id,
    {
        AltDaSource { commitment: None, id }
    }

    /// The answer to a pull after advancing the input fetcher to the block: `None` to go
    /// on; a reset where a reorg is required; a temporary error naming any other failure.
    pub fn on_advance(&self, advanced: Result<(), AltDaError>) -> (res: Option<PipelineErrorKind>)
        ensures
            match advanced {
                Ok(_) => res is None,
                Err(AltDaError::ReorgRequired) => res matches Some(PipelineErrorKind::Reset(r))
                    && r == ResetError::NewExpiredChallenge,
                Err(e) => res matches Some(
                    PipelineErrorKind::Temporary(PipelineError::AltDaAdvanceFailed(m)),
                ) && m@ == error_message(e),
            },
    {
        match advanced {
            Ok(_) => None,
            Err(AltDaError::ReorgRequired) => Some(
                PipelineErrorKind::Reset(ResetError::NewExpiredChallenge),
            ),
            Err(e) => Some(
                PipelineErrorKind::Temporary(PipelineError::AltDaAdvanceFailed(message_string(e))),
            ),
        }
    }

    /// Whether the next pull reads batcher data first.
    pub fn needs_data(&self) -> (res: bool)
        ensures
            res == self.commitment is None,
    {
        self.commitment.is_none()
    }

    /// Takes the batcher data pulled from the L1 source (`None` where the pull failed):
    /// data that is not alt-DA tx data is forwarded; a commitment is kept for fetching its
    /// input; anything else is a temporary shortage of data.
    pub fn on_source_data(&mut self, data: Option<Vec<u8>>) -> (res: SourceStep)
        requires
            old(self).commitment is None,
        ensures
            final(self).id == old(self).id,
            step_outcome(res) == source_data_outcome(data_view(data)),
            final(self).commitment is Some <==> source_data_outcome(data_view(data)) is FetchInput,
            match data {
                None => res matches SourceStep::Stop(
                    Err(PipelineErrorKind::Temporary(PipelineError::NotEnoughData)),
                ) && final(self).commitment is None,
                Some(d) => if d@.len() == 0 {
                    res matches SourceStep::Stop(
                        Err(PipelineErrorKind::Temporary(PipelineError::NotEnoughData)),
                    ) && final(self).commitment is None
                } else if d@[0] != TX_DATA_VERSION_1 {
                    res matches SourceStep::Stop(Ok(r)) && r@ == d@ && final(self).commitment is None
                } else {
                    match spec_decode_commitment(d@.drop_first()) {
                        None => res matches SourceStep::Stop(
                            Err(PipelineErrorKind::Temporary(PipelineError::NotEnoughData)),
                        ) && final(self).commitment is None,
                        Some(c) => res is FetchInput && (final(self).commitment matches Some(fc)
                            && fc@ == c),
                    }
                },
            },
    {
        let d = match data {
            Some(d) => d,
            None => return SourceStep::Stop(
                Err(PipelineErrorKind::Temporary(PipelineError::NotEnoughData)),
            ),
        };
        if d.len() == 0 {
            return SourceStep::Stop(Err(PipelineErrorKind::Temporary(PipelineError::NotEnoughData)));
        }
        if d[0] != TX_DATA_VERSION_1 {
            return SourceStep::Stop(Ok(d));
        }
        let rest = vstd::slice::slice_subrange(d.as_slice(), 1, d.len());
        assert(rest@ =~= d@.drop_first());
        match decode_commitment_data(rest) {
            Ok(c) => {
                self.commitment = Some(c);
                SourceStep::FetchInput
            },
            Err(_) => SourceStep::Stop(Err(PipelineErrorKind::Temporary(PipelineError::NotEnoughData))),
        }
    }

    /// The commitment whose input to fetch; a temporary shortage of data where none is
    /// pending.
    pub fn pending_commitment(&self) -> (res: Result<CommitmentData, PipelineErrorKind>)
        ensures
            match self.commitment {
                Some(c) => res matches Ok(r) && r@ == c@,
                None => res matches Err(
                    PipelineErrorKind::Temporary(PipelineError::NotEnoughData),
                ),
            },
    {
        match &self.commitment {
            Some(c) => Ok(c.clone()),
            None => Err(PipelineErrorKind::Temporary(PipelineError::NotEnoughData)),
        }
    }

    /// Takes the input fetcher's answer for the pending commitment: data within the size
    /// limit is returned and the commitment is done; oversized data and expired challenges
    /// drop the commitment and start the pull over; a reorg resets the pipeline; a
    /// commitment past its window is a critical error naming it; a pending challenge and
    /// any other failure are temporary errors, which keep the commitment.
    pub fn on_input(&mut self, input: Result<Vec<u8>, AltDaError>) -> (res: SourceStep)
        requires
            old(self).commitment is Some,
        ensures
            final(self).id == old(self).id,
            step_outcome(res) == input_outcome(input_view(input)),
            final(self).commitment is Some <==> input_keeps_commitment(input_view(input)),
            ({
                let c = old(self).commitment.unwrap()@;
                let text = spec_hex_lower(spec_encode(c));
                match input {
                    Ok(d) => if d@.len() > MAX_INPUT_SIZE {
                        res is Restart && final(self).commitment is None
                    } else {
                        res matches SourceStep::Stop(Ok(r)) && r@ == d@ && final(self).commitment is None
                    },
                    Err(AltDaError::ReorgRequired) => res matches SourceStep::Stop(
                        Err(PipelineErrorKind::Reset(r)),
                    ) && r == ResetError::NewExpiredChallenge && final(self).commitment == old(self).commitment,
                    Err(AltDaError::ChallengeExpired) => res is Restart && final(self).commitment is None,
                    Err(AltDaError::MissingPastWindow) => res matches SourceStep::Stop(
                        Err(PipelineErrorKind::Critical(PipelineError::CommitmentDataEmpty(m))),
                    ) && m@ == spec_hex_lower(text.map_values(|ch: char| ch as u8)) && final(self).commitment == old(self).commitment,
                    Err(AltDaError::ChallengePending) => res matches SourceStep::Stop(
                        Err(PipelineErrorKind::Temporary(PipelineError::NotEnoughData)),
                    ) && final(self).commitment == old(self).commitment,
                    Err(_) => res matches SourceStep::Stop(
                        Err(PipelineErrorKind::Temporary(PipelineError::CommitmentDataEmpty(m))),
                    ) && m@ == text && final(self).commitment == old(self).commitment,
                }
            }),
    {
        match input {
            Ok(data) => {
                self.commitment = None;
                if data.len() > MAX_INPUT_SIZE {
                    SourceStep::Restart
                } else {
                    SourceStep::Stop(Ok(data))
                }
            },
            Err(AltDaError::ReorgRequired) => SourceStep::Stop(
                Err(PipelineErrorKind::Reset(ResetError::NewExpiredChallenge)),
            ),
            Err(AltDaError::ChallengeExpired) => {
                self.commitment = None;
                SourceStep::Restart
            },
            Err(AltDaError::MissingPastWindow) => {
                let text = match &self.commitment {
                    Some(c) => c.to_string(),
                    None => String::new(),
                };
                let bytes = text.as_str().as_bytes();
                proof {
                    lemma_hex_lower_ascii(spec_encode(old(self).commitment.unwrap()@));
                    vstd::utf8::is_ascii_chars_encode_utf8(text@);
                    assert(bytes@ =~= text@.map_values(|ch: char| ch as u8));
                }
                let hexed = hex_encode(bytes);
                SourceStep::Stop(
                    Err(PipelineErrorKind::Critical(PipelineError::CommitmentDataEmpty(hexed))),
                )
            },
            Err(AltDaError::ChallengePending) => SourceStep::Stop(
                Err(PipelineErrorKind::Temporary(PipelineError::NotEnoughData)),
            ),
            Err(_) => {
                let text = match &self.commitment {
                    Some(c) => c.to_string(),
                    None => String::new(),
                };
                SourceStep::Stop(
                    Err(PipelineErrorKind::Temporary(PipelineError::CommitmentDataEmpty(text))),
                )
            },
        }
    }
}

} // verus!
