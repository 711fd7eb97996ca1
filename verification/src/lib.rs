//! Bridge library between a layer-2 ledger head and transaction-resolution
//! clients: an in-memory ledger snapshot store fed by a protocol event
//! stream, a decoder from the wire value/datum representation to canonical
//! asset totals and expression trees, a bounded input-query selector over the
//! snapshot, and the pure decision logic of the submission/confirmation path.
use vstd::prelude::*;

pub mod alist;
pub mod datum;
pub mod inputs;
pub mod ledger;
pub mod mapping;
pub mod model;
pub mod server;
pub mod store;
pub mod submit;
pub mod text;
pub mod utxos;

verus! {

/// The adapter's whole configuration: the serving side and the head
/// connection.
#[derive(Clone, Debug)]
pub struct Config {
    pub trp: crate::server::Config,
    pub hydra: crate::store::Config,
}

} // verus!
