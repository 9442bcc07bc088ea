//! Alternative data availability (alt-DA) support for a rollup derivation
//! pipeline: commitments and their byte encodings, the challenge state that
//! decides when a commitment expires, and the decisions the input fetcher and
//! the data source take between their network calls.

pub mod calldata;
pub mod commitment;
pub mod da_client;
pub mod events;
pub mod oracle;
pub mod primitives;
pub mod provider;
pub mod source;
pub mod state;
pub mod test_utils;
pub mod types;
