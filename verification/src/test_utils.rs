//! A scripted input fetcher, for exercising the data source without a chain.

use vstd::prelude::*;
use crate::types::AltDaError;

verus! {

/// An input fetcher that answers from scripted results, last first.
#[derive(Debug, Default)]
pub struct TestAltDAInputFetcher {
    /// Inputs to return.
    pub inputs: Vec<Result<Vec<u8>, AltDaError>>,
    /// Results of advancing the L1 origin.
    pub advances: Vec<Result<(), AltDaError>>,
    /// Results of resets.
    pub resets: Vec<Result<(), AltDaError>>,
}

impl TestAltDAInputFetcher {
    /// Answers an input request with the last scripted input.
    pub fn get_input(&mut self) -> (res: Result<Vec<u8>, AltDaError>)
        requires
            old(self).inputs@.len() > 0,
        ensures
            res == old(self).inputs@.last(),
            final(self).inputs@ == old(self).inputs@.drop_last(),
            final(self).advances == old(self).advances,
            final(self).resets == old(self).resets,
    {
        match self.inputs.pop() {
            Some(r) => r,
            None => Err(AltDaError::NotEnoughData),
        }
    }

    /// Answers an advance of the L1 origin with the last scripted result.
    pub fn advance_l1_origin(&mut self) -> (res: Result<(), AltDaError>)
        requires
            old(self).advances@.len() > 0,
        ensures
            res == old(self).advances@.last(),
            final(self).advances@ == old(self).advances@.drop_last(),
            final(self).inputs == old(self).inputs,
            final(self).resets == old(self).resets,
    {
        match self.advances.pop() {
            Some(r) => r,
            None => Ok(()),
        }
    }
}

} // verus!
