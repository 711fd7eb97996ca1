//! Data model of the head's wire protocol: inbound events, the UTXO and
//! value representation, protocol parameters, and the outbound transaction
//! envelope. The JSON maps of the wire format are held as key-value vectors
//! (see `alist`).
use vstd::prelude::*;

use crate::alist::{alist_get, alist_lookup};
use crate::text::hex_encoding;
use crate::text::hex_encode;

verus! {

/// A UTXO key of the form `"<hex-encoded transaction hash>#<output index>"`.
pub type TxID = String;

/// Status reported by the remote head. The library has no transition rules:
/// it stores whatever value arrives.
#[derive(Clone, Copy, Debug, PartialEq, Eq, Structural)]
pub enum HeadStatus {
    Idle,
    Initializing,
    Open,
    Closed,
    FanoutPossible,
    Final,
}

/// One entry of a UTXO's value map: the `"lovelace"` key carries a plain
/// amount, any other key (a policy id in hexadecimal) carries a nested map
/// from asset-name hexadecimal to amount.
#[derive(Clone, Debug)]
pub enum AssetValue {
    Lovelace(u64),
    Multi(Vec<(String, u64)>),
}

/// Map of asset unit keys to amounts.
#[derive(Clone, Debug)]
pub struct Value {
    pub assets: Vec<(String, AssetValue)>,
}

impl Value {
    /// The plain amount under the `"lovelace"` key, or zero when that key
    /// is absent or carries a nested map.
    pub open spec fn spec_lovelace(&self) -> int {
        match alist_get(self.assets@, "lovelace"@) {
            Some(AssetValue::Lovelace(amount)) => amount as int,
            _ => 0,
        }
    }

    pub fn lovelace(&self) -> (r: i128)
        ensures
            r == self.spec_lovelace(),
    {
        let key: String = String::from_str("lovelace");
        match alist_lookup(&self.assets, &key) {
            Some(AssetValue::Lovelace(amount)) => *amount as i128,
            _ => 0i128,
        }
    }

    /// The nested asset map under a policy key, empty when the key is
    /// absent or carries a plain amount.
    pub open spec fn spec_assets_by_policy(&self, policy_hex: Seq<char>) -> Seq<(String, u64)> {
        match alist_get(self.assets@, policy_hex) {
            Some(AssetValue::Multi(m)) => m@,
            _ => Seq::<(String, u64)>::empty(),
        }
    }

    pub fn assets_by_policy(&self, policy_hex: &String) -> (r: Vec<(String, u64)>)
        ensures
            r@ == self.spec_assets_by_policy(policy_hex@),
    {
        match alist_lookup(&self.assets, policy_hex) {
            Some(AssetValue::Multi(m)) => clone_name_amounts(m),
            _ => Vec::new(),
        }
    }
}

/// Copies a vector of name-amount pairs; the copy denotes the same
/// sequence.
pub fn clone_name_amounts(v: &Vec<(String, u64)>) -> (r: Vec<(String, u64)>)
    ensures
        r@ == v@,
{
    let mut r: Vec<(String, u64)> = Vec::new();
    let n = v.len();
    for i in 0..n
        invariant
            n == v@.len(),
            r@ =~= v@.take(i as int),
    {
        r.push((v[i].0.clone(), v[i].1));
    }
    proof {
        assert(v@.take(n as int) == v@);
    }
    r
}

/// A script attached to a UTXO for reference; ignored by input resolution.
#[derive(Clone, Debug)]
pub struct ReferenceScript {
    /// Base16 encoding of the script body.
    pub cbor_hex: String,
    pub description: String,
    /// One of SimpleScript, PlutusScriptV1, PlutusScriptV2, PlutusScriptV3.
    pub script_type: String,
}

/// One unspent output as the head reports it. At most one of the datum
/// representations is populated by the wire protocol; `inline_datum_raw`
/// (base16 CBOR) takes precedence, and a bare `datum` hash is a decode
/// error when consumed, since resolution needs a concrete datum value.
/// The wire also carries a JSON-structured rendering of an inline datum;
/// it has no decode path here (nor did it ever feed resolution), so a UTXO
/// carrying only that rendering decodes as having no datum.
#[derive(Clone, Debug)]
pub struct Utxo {
    /// A bech32-encoded address.
    pub address: String,
    /// Base16 encoding of a datum hash, with no concrete datum alongside.
    pub datum: Option<String>,
    /// Base16 encoding.
    pub datumhash: Option<String>,
    /// Base16 encoding.
    pub inline_datum_hash: Option<String>,
    /// Base16 encoding of the CBOR encoding of the datum.
    pub inline_datum_raw: Option<String>,
    pub reference_script: Option<ReferenceScript>,
    pub value: Value,
}

/// The transaction named by a validation event.
#[derive(Clone, Debug)]
pub struct Transaction {
    pub tx_id: String,
}

/// The head's reason for rejecting a transaction.
#[derive(Clone, Debug)]
pub struct ValidationError {
    pub reason: String,
}

/// Inbound protocol events the library understands. Unknown wire shapes
/// never reach this type: the reader skips them.
#[derive(Clone, Debug)]
pub enum Event {
    Greetings { head_status: HeadStatus, snapshot: Vec<(TxID, Utxo)> },
    SnapshotConfirmed { snapshot: Vec<(TxID, Utxo)>, seq: u64, timestamp: String },
    HeadIsOpen { snapshot: Vec<(TxID, Utxo)> },
    TxValid { tx_id: String },
    TxInvalid { transaction: Transaction, validation_error: ValidationError },
}

/// Sync progress of the last confirmed snapshot.
#[derive(Clone, Debug)]
pub struct Progress {
    pub seq: u64,
    pub timestamp: String,
}

impl Default for Progress {
    fn default() -> (r: Self)
        ensures
            r.seq == 0,
            r.timestamp@ == Seq::<char>::empty(),
    {
        Progress { seq: 0, timestamp: String::new() }
    }
}

#[derive(Clone, Copy, Debug, PartialEq, Eq, Structural)]
pub enum HydraPParamsPlutusVersion {
    PlutusV1,
    PlutusV2,
    PlutusV3,
}

impl HydraPParamsPlutusVersion {
    pub open spec fn spec_to_u8(self) -> u8 {
        match self {
            HydraPParamsPlutusVersion::PlutusV1 => 0,
            HydraPParamsPlutusVersion::PlutusV2 => 1,
            HydraPParamsPlutusVersion::PlutusV3 => 2,
        }
    }

    pub fn to_u8(self) -> (r: u8)
        ensures
            r == self.spec_to_u8(),
    {
        match self {
            HydraPParamsPlutusVersion::PlutusV1 => 0,
            HydraPParamsPlutusVersion::PlutusV2 => 1,
            HydraPParamsPlutusVersion::PlutusV3 => 2,
        }
    }
}

/// Protocol parameters as the head's HTTP endpoint reports them.
#[derive(Clone, Debug)]
pub struct HydraPParams {
    pub tx_fee_per_byte: u64,
    pub tx_fee_fixed: u64,
    pub utxo_cost_per_byte: u64,
    pub cost_models: Vec<(HydraPParamsPlutusVersion, Vec<i64>)>,
}

/// Protocol parameters in the shape the transaction compiler consumes:
/// fee coefficients and cost models keyed by numeric script version.
#[derive(Clone, Debug)]
pub struct PParamsData {
    pub network: u8,
    pub min_fee_coefficient: u64,
    pub min_fee_constant: u64,
    pub coins_per_utxo_byte: u64,
    pub cost_models: Vec<(u8, Vec<i64>)>,
}

impl HydraPParams {
    /// Carries the fee fields over unchanged and renumbers each cost model
    /// by its script version.
    pub fn to_tx3_pparams(&self, network: u8) -> (r: PParamsData)
        ensures
            r.network == network,
            r.min_fee_coefficient == self.tx_fee_per_byte,
            r.min_fee_constant == self.tx_fee_fixed,
            r.coins_per_utxo_byte == self.utxo_cost_per_byte,
            r.cost_models@.len() == self.cost_models@.len(),
            forall|i: int| 0 <= i < self.cost_models@.len() ==> {
                &&& (#[trigger] r.cost_models@[i]).0 == self.cost_models@[i].0.spec_to_u8()
                &&& r.cost_models@[i].1@ == self.cost_models@[i].1@
            },
    {
        let mut cost_models: Vec<(u8, Vec<i64>)> = Vec::new();
        let n = self.cost_models.len();
        for i in 0..n
            invariant
                n == self.cost_models@.len(),
                cost_models@.len() == i,
                forall|j: int| 0 <= j < i ==> {
                    &&& (#[trigger] cost_models@[j]).0 == self.cost_models@[j].0.spec_to_u8()
                    &&& cost_models@[j].1@ == self.cost_models@[j].1@
                },
        {
            let (version, model) = &self.cost_models[i];
            cost_models.push((version.to_u8(), model.clone()));
        }
        PParamsData {
            network,
            min_fee_coefficient: self.tx_fee_per_byte,
            min_fee_constant: self.tx_fee_fixed,
            coins_per_utxo_byte: self.utxo_cost_per_byte,
            cost_models,
        }
    }
}

/// The outbound "submit new transaction" envelope.
#[derive(Clone, Debug)]
pub struct NewTx {
    pub tx_type: String,
    pub description: String,
    /// Base16 encoding of the raw transaction bytes.
    pub cbor_hex: String,
}

impl NewTx {
    /// Wraps raw transaction bytes for the wire: the era label and
    /// description are fixed, the body is the bytes in hexadecimal.
    pub fn new(cbor: Vec<u8>) -> (r: Self)
        ensures
            r.tx_type@ == "Tx ConwayEra"@,
            r.description@ == "Tx3 Transaction"@,
            r.cbor_hex@ == hex_encoding(cbor@),
    {
        let tx_type: String = String::from_str("Tx ConwayEra");
        let description: String = String::from_str("Tx3 Transaction");
        let cbor_hex: String = hex_encode(cbor.as_slice());
        NewTx { tx_type, description, cbor_hex }
    }
}

/// Message kinds accepted on the head's write side.
#[derive(Clone, Debug)]
pub enum HydraMessage {
    NewTx(NewTx),
}

} // verus!
