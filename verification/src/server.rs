//! Configuration of the request-serving side, and the request and response
//! shapes of the submit method.
use vstd::prelude::*;

use crate::submit::Encoding;

verus! {

/// The optimization-round ceiling used when the configuration names none.
pub fn default_max_optimize_rounds() -> (r: usize)
    ensures
        r == 10,
{
    10
}

/// Configuration of the request-serving side.
#[derive(Clone, Debug)]
pub struct Config {
    pub listen_address: String,
    pub permissive_cors: bool,
    pub max_optimize_rounds: usize,
}

/// The transaction part of a submit request.
#[derive(Debug)]
pub struct TrpSubmitTxRequest {
    pub encoding: Encoding,
    pub payload: String,
}

/// A submit request.
#[derive(Debug)]
pub struct TrpSubmitRequest {
    pub tx: TrpSubmitTxRequest,
}

/// A successful submit response: the transaction's canonical hash in
/// base16.
#[derive(Clone, Debug)]
pub struct TrpSubmitResponse {
    pub hash: String,
}

} // verus!
