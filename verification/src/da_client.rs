//! The client of an alt-DA storage server: the URLs it calls and how it reads the
//! server's replies. The caller performs the HTTP requests.

use vstd::prelude::*;
use crate::commitment::{
    decode_commitment_data, new_commitment_data, spec_decode_commitment, spec_encode,
    spec_verifies, CommitmentData, CommitmentView,
};
use crate::primitives::{hex_encode, spec_hex_lower, spec_keccak256};
use crate::types::{AltDaError, CommitmentType};

verus! {

/// The HTTP status of a successful request.
pub const HTTP_OK: u16 = 200;

/// The HTTP status of a missing resource.
pub const HTTP_NOT_FOUND: u16 = 404;

/// Settings of the client of an alt-DA storage server.
#[derive(Debug)]
pub struct DAClient {
    /// The server's base URL.
    pub url: String,
    /// Whether fetched inputs are checked against their commitment.
    pub verify: bool,
    /// Whether commitments are computed locally rather than taken from the server.
    pub precompute: bool,
}

/// What the server's reply to a fetch gives: the body where the status is OK and the body
/// was read (and, when verifying, the commitment accepts it).
pub open spec fn spec_get_reply(
    verify: bool,
    key: CommitmentView,
    status: u16,
    body: Option<Seq<u8>>,
) -> Result<Seq<u8>, AltDaError> {
    if status == HTTP_NOT_FOUND {
        Err(AltDaError::NotFound)
    } else if status != HTTP_OK {
        Err(AltDaError::FailedToGetPreimage)
    } else {
        match body {
            None => Err(AltDaError::FailedToGetPreimage),
            Some(b) => if verify && !spec_verifies(key, b) {
                Err(AltDaError::CommitmentMismatch)
            } else {
                Ok(b)
            },
        }
    }
}

/// A reply with status 404 means the server does not have the input, whatever its body;
/// any other status but 200 is a failure, whatever its body; a 200 reply with a body that
/// the commitment accepts (or with verification off) gives that body.
pub proof fn law_get_reply_by_status(
    verify: bool,
    key: CommitmentView,
    status: u16,
    body: Option<Seq<u8>>,
)
    ensures
        status == 404 ==> spec_get_reply(verify, key, status, body) == Err::<Seq<u8>, AltDaError>(
            AltDaError::NotFound,
        ),
        status != 404 && status != 200 ==> spec_get_reply(verify, key, status, body) == Err::<
            Seq<u8>,
            AltDaError,
        >(AltDaError::FailedToGetPreimage),
        status == 200 && body is Some && (!verify || spec_verifies(key, body.unwrap()))
            ==> spec_get_reply(verify, key, status, body) == Ok::<Seq<u8>, AltDaError>(
            body.unwrap(),
        ),
{
}

/// What the server's reply to a store gives: the commitment, computed locally when
/// precomputing, else decoded from the body.
pub open spec fn spec_put_reply(
    precompute: bool,
    img: Seq<u8>,
    status: u16,
    body: Option<Seq<u8>>,
) -> Result<CommitmentView, AltDaError> {
    if status != HTTP_OK {
        Err(AltDaError::FailedToGetPreimage)
    } else {
        match body {
            None => Err(AltDaError::FailedToGetPreimage),
            Some(b) => if precompute {
                Ok((CommitmentType::Keccak256, spec_keccak256(img)))
            } else {
                match spec_decode_commitment(b) {
                    Some(c) => Ok(c),
                    None => Err(AltDaError::InvalidCommitment),
                }
            },
        }
    }
}

impl DAClient {
    /// A client of the server at `url`.
    pub fn new(url: String, verify: bool, precompute: bool) -> (res: Self)
        ensures
            res.url == url,
            res.verify == verify,
            res.precompute == precompute,
    {
        DAClient { url, verify, precompute }
    }

    /// The URL that fetches the input of `key`.
    pub fn get_url(&self, key: &CommitmentData) -> (res: String)
        ensures
            res@ == self.url@ + "/get/0x"@ + spec_hex_lower(spec_encode(key@)),
    {
        let encoded = key.encode();
        let hex = hex_encode(encoded.as_slice());
        self.url.clone().concat("/get/0x").concat(hex.as_str())
    }

    /// The URL that stores an input and lets the server compute its commitment.
    pub fn put_url(&self) -> (res: String)
        ensures
            res@ == self.url@ + "/put/"@,
    {
        self.url.clone().concat("/put/")
    }

    /// The URL that stores an input under the commitment `comm`.
    pub fn put_url_with_commit(&self, comm: &CommitmentData) -> (res: String)
        ensures
            res@ == self.url@ + "/put/0x"@ + spec_hex_lower(spec_encode(comm@)),
    {
        let encoded = comm.encode();
        let hex = hex_encode(encoded.as_slice());
        self.url.clone().concat("/put/0x").concat(hex.as_str())
    }

    /// Refuses to store an empty input.
    pub fn check_input(img: &[u8]) -> (res: Result<(), AltDaError>)
        ensures
            img@.len() == 0 <==> res == Err::<(), AltDaError>(AltDaError::InvalidInput),
            img@.len() > 0 <==> res is Ok,
    {
        if img.len() == 0 {
            Err(AltDaError::InvalidInput)
        } else {
            Ok(())
        }
    }

    /// Reads the server's reply to a fetch of `key`: its status, and its body where it
    /// could be read.
    pub fn get_input_reply(&self, key: &CommitmentData, status: u16, body: Option<Vec<u8>>) -> (res:
        Result<Vec<u8>, AltDaError>)
        ensures
            ({
                let body_view = match body {
                    Some(b) => Some(b@),
                    None => None,
                };
                match spec_get_reply(self.verify, key@, status, body_view) {
                    Ok(b) => res matches Ok(r) && r@ == b,
                    Err(e) => res == Err::<Vec<u8>, AltDaError>(e),
                }
            }),
            status == 404 ==> res == Err::<Vec<u8>, AltDaError>(AltDaError::NotFound),
            status != 404 && status != 200 ==> res == Err::<Vec<u8>, AltDaError>(
                AltDaError::FailedToGetPreimage,
            ),
            status == 200 && body is Some && (!self.verify || spec_verifies(
                key@,
                body.unwrap()@,
            )) ==> (res matches Ok(r) && r@ == body.unwrap()@),
    {
        if status == HTTP_NOT_FOUND {
            return Err(AltDaError::NotFound);
        }
        if status != HTTP_OK {
            return Err(AltDaError::FailedToGetPreimage);
        }
        let input = match body {
            Some(b) => b,
            None => return Err(AltDaError::FailedToGetPreimage),
        };
        if self.verify {
            key.verify(input.as_slice())?;
        }
        Ok(input)
    }

    /// Reads the server's reply to a store of `img`: its status, and its body where it
    /// could be read.
    pub fn set_input_reply(&self, img: &[u8], status: u16, body: Option<Vec<u8>>) -> (res: Result<
        CommitmentData,
        AltDaError,
    >)
        ensures
            ({
                let body_view = match body {
                    Some(b) => Some(b@),
                    None => None,
                };
                match spec_put_reply(self.precompute, img@, status, body_view) {
                    Ok(c) => res matches Ok(r) && r@ == c,
                    Err(e) => res matches Err(e2) && e2 == e,
                }
            }),
    {
        if status != HTTP_OK {
            return Err(AltDaError::FailedToGetPreimage);
        }
        let body = match body {
            Some(b) => b,
            None => return Err(AltDaError::FailedToGetPreimage),
        };
        if self.precompute {
            Ok(new_commitment_data(CommitmentType::Keccak256, img))
        } else {
            decode_commitment_data(body.as_slice())
        }
    }

    /// Reads the server's reply to a store under a given commitment.
    pub fn put_with_commit_reply(status: u16) -> (res: Result<(), AltDaError>)
        ensures
            status == HTTP_OK <==> res is Ok,
            status != HTTP_OK ==> res == Err::<(), AltDaError>(AltDaError::FailedToGetPreimage),
    {
        if status != HTTP_OK {
            Err(AltDaError::FailedToGetPreimage)
        } else {
            Ok(())
        }
    }
}

} // verus!
