//! The submission path's decisions: decoding the request payload, the
//! local structural check that gates any write to the head, the outbound
//! envelope, and the correlation of a submitted transaction with the
//! validation event that later names its hash — or with the timeout, whose
//! error says the fate is unknown, not negative.
use vstd::prelude::*;

use crate::model::{Event, HydraMessage, NewTx};
use crate::text::{hex_decode, hex_decoding, hex_encoding};
use base64::Engine;
use tx3_cardano::pallas::ledger::traverse::MultiEraTx;

verus! {

/// How a request carries its bytes.
#[derive(Clone, Copy, Debug, PartialEq, Eq, Structural)]
pub enum Encoding {
    Hex,
    Base64,
}

/// What the standard-alphabet base64 decode yields; a function of the text
/// alone.
pub uninterp spec fn base64_decoding(s: Seq<char>) -> Option<Seq<u8>>;

/// Relies on the base64 crate's standard-alphabet decode: a function of
/// the text alone, rejecting malformed input.
#[verifier::external_body]
fn base64_decode(s: &str) -> (r: Option<Vec<u8>>)
    ensures
        match r {
            Some(b) => base64_decoding(s@) == Some(b@),
            None => base64_decoding(s@) is None,
        },
{
    base64::engine::general_purpose::STANDARD.decode(s).ok()
}

/// What decoding a payload under an announced encoding yields.
pub open spec fn payload_decoding(encoding: Encoding, s: Seq<char>) -> Option<Seq<u8>> {
    match encoding {
        Encoding::Hex => hex_decoding(s),
        Encoding::Base64 => base64_decoding(s),
    }
}

/// Decodes a request payload under its announced encoding.
pub fn decode_payload(encoding: &Encoding, payload: &str) -> (r: Option<Vec<u8>>)
    ensures
        match r {
            Some(b) => payload_decoding(*encoding, payload@) == Some(b@),
            None => payload_decoding(*encoding, payload@) is None,
        },
{
    match encoding {
        Encoding::Hex => hex_decode(payload),
        Encoding::Base64 => base64_decode(payload),
    }
}

/// Why raw bytes were refused as a transaction.
#[derive(Clone, Copy, Debug, PartialEq, Eq, Structural)]
pub enum TxError {
    /// The bytes do not decode as a transaction of any known era.
    Undecodable,
    /// The bytes decode, but not to a structurally valid transaction.
    Invalid,
}

/// What the transaction codec makes of raw bytes: the canonical hash of a
/// structurally valid transaction, or which check refused it. A function
/// of the bytes alone.
pub uninterp spec fn tx_validation(bytes: Seq<u8>) -> Result<Seq<u8>, TxError>;

/// Relies on the transaction codec (`MultiEraTx::decode`, `is_valid` and
/// `hash`): decoding, the structural validity flag and the canonical hash
/// are all functions of the bytes alone.
#[verifier::external_body]
fn validate_tx(raw: &Vec<u8>) -> (r: Result<Vec<u8>, TxError>)
    ensures
        match r {
            Ok(h) => tx_validation(raw@) == Ok::<Seq<u8>, TxError>(h@),
            Err(e) => tx_validation(raw@) == Err::<Seq<u8>, TxError>(e),
        },
{
    match MultiEraTx::decode(raw) {
        Ok(tx) => {
            if tx.is_valid() {
                Ok(tx.hash().to_vec())
            } else {
                Err(TxError::Invalid)
            }
        }
        Err(_) => Err(TxError::Undecodable),
    }
}

/// Why a submission failed.
#[derive(Clone, Debug)]
pub enum SubmitError {
    /// The payload is not valid text under its announced encoding.
    BadPayload,
    /// The bytes do not decode as a transaction.
    UndecodableTx,
    /// The bytes decode, but not to a structurally valid transaction.
    InvalidTx,
    /// The head rejected the transaction; carries the head's own reason.
    Rejected(String),
    /// No validation event named the transaction within the window; its
    /// fate is unknown, which is not a rejection.
    Timeout,
}

/// A submission ready for the wire: the canonical hash the confirmation
/// must name, and the envelope to write.
pub struct PreparedTx {
    pub hash_hex: String,
    pub message: NewTx,
}

/// The relation `prepare_submission` establishes: the bytes decode under
/// the announced encoding to a structurally valid transaction, the
/// envelope carries exactly those bytes in base16, and the hash is the
/// transaction's canonical hash in base16.
pub open spec fn submission_prepared(
    encoding: Encoding,
    payload: Seq<char>,
    r: Result<PreparedTx, SubmitError>,
) -> bool {
    match payload_decoding(encoding, payload) {
        None => r == Err::<PreparedTx, SubmitError>(SubmitError::BadPayload),
        Some(raw) => match tx_validation(raw) {
            Err(TxError::Undecodable) => r == Err::<PreparedTx, SubmitError>(
                SubmitError::UndecodableTx,
            ),
            Err(TxError::Invalid) => r == Err::<PreparedTx, SubmitError>(SubmitError::InvalidTx),
            Ok(h) => r matches Ok(p) && p.hash_hex@ == hex_encoding(h)
                && p.message.cbor_hex@ == hex_encoding(raw)
                && p.message.tx_type@ == "Tx ConwayEra"@
                && p.message.description@ == "Tx3 Transaction"@,
        },
    }
}

/// Decodes and validates a submission before anything is written to the
/// head: structurally invalid bytes fail here, so no envelope for them
/// ever exists. On success the envelope and the canonical hash to await
/// are pinned exactly.
pub fn prepare_submission(encoding: &Encoding, payload: &str) -> (r: Result<
    PreparedTx,
    SubmitError,
>)
    ensures
        submission_prepared(*encoding, payload@, r),
{
    let raw = match decode_payload(encoding, payload) {
        Some(b) => b,
        None => {
            return Err(SubmitError::BadPayload);
        }
    };
    let hash = match validate_tx(&raw) {
        Ok(h) => h,
        Err(TxError::Undecodable) => {
            return Err(SubmitError::UndecodableTx);
        }
        Err(TxError::Invalid) => {
            return Err(SubmitError::InvalidTx);
        }
    };
    let hash_hex = crate::text::hex_encode(hash.as_slice());
    let message = NewTx::new(raw);
    Ok(PreparedTx { hash_hex, message })
}

/// Wraps a prepared envelope for the write side.
pub fn into_message(prepared: PreparedTx) -> (r: (String, HydraMessage))
    ensures
        r.0 == prepared.hash_hex,
        r.1 == HydraMessage::NewTx(prepared.message),
{
    (prepared.hash_hex, HydraMessage::NewTx(prepared.message))
}

/// What one bus event decides for a submission awaiting confirmation:
/// nothing unless the event names the submission's hash; then success on
/// "transaction valid" and the head's reason on "transaction invalid".
pub open spec fn event_verdict(hash_hex: Seq<char>, event: Event) -> Option<
    Result<Seq<char>, SubmitError>,
> {
    match event {
        Event::TxValid { tx_id } => if tx_id@ == hash_hex {
            Some(Ok::<Seq<char>, SubmitError>(hash_hex))
        } else {
            None::<Result<Seq<char>, SubmitError>>
        },
        Event::TxInvalid { transaction, validation_error } => if transaction.tx_id@ == hash_hex {
            Some(Err::<Seq<char>, SubmitError>(SubmitError::Rejected(validation_error.reason)))
        } else {
            None::<Result<Seq<char>, SubmitError>>
        },
        _ => None::<Result<Seq<char>, SubmitError>>,
    }
}

/// The verdict after a run of bus events: the first event that names the
/// hash decides.
pub open spec fn verdict_of(hash_hex: Seq<char>, events: Seq<Event>) -> Option<
    Result<Seq<char>, SubmitError>,
>
    decreases events.len(),
{
    if events.len() == 0 {
        None::<Result<Seq<char>, SubmitError>>
    } else {
        match event_verdict(hash_hex, events[0]) {
            Some(v) => Some(v),
            None => verdict_of(hash_hex, events.drop_first()),
        }
    }
}

/// A submission awaiting its validation outcome on the event bus.
pub struct ConfirmationWaiter {
    pub hash_hex: String,
}

impl ConfirmationWaiter {
    pub fn new(hash_hex: String) -> (r: Self)
        ensures
            r.hash_hex == hash_hex,
    {
        ConfirmationWaiter { hash_hex }
    }

    /// Judges one bus event: `None` keeps waiting; events naming other
    /// transactions are ignored.
    pub fn on_event(&self, event: &Event) -> (r: Option<Result<String, SubmitError>>)
        ensures
            match r {
                None => event_verdict(self.hash_hex@, *event) is None,
                Some(Ok(h)) => event_verdict(self.hash_hex@, *event)
                    == Some(Ok::<Seq<char>, SubmitError>(h@)) && h@ == self.hash_hex@,
                Some(Err(e)) => event_verdict(self.hash_hex@, *event)
                    == Some(Err::<Seq<char>, SubmitError>(e)),
            },
    {
        match event {
            Event::TxValid { tx_id } => {
                if tx_id.eq(&self.hash_hex) {
                    Some(Ok(self.hash_hex.clone()))
                } else {
                    None
                }
            }
            Event::TxInvalid { transaction, validation_error } => {
                if transaction.tx_id.eq(&self.hash_hex) {
                    Some(Err(SubmitError::Rejected(validation_error.reason.clone())))
                } else {
                    None
                }
            }
            _ => None,
        }
    }

    /// No validation event named the transaction before the deadline: the
    /// outcome is the timeout error, never a rejection.
    pub fn on_timeout(&self) -> (r: SubmitError)
        ensures
            r == SubmitError::Timeout,
    {
        SubmitError::Timeout
    }
}

/// Law: a confirmation wait that sees no event naming its transaction
/// within the window reaches no verdict — so the caller reports the
/// distinct timeout error, not a rejection: the transaction's fate is
/// unknown, not negative.
pub proof fn lemma_no_match_times_out(hash_hex: Seq<char>, events: Seq<Event>)
    requires
        forall|i: int| 0 <= i < events.len()
            ==> event_verdict(hash_hex, #[trigger] events[i]) is None,
    ensures
        verdict_of(hash_hex, events) is None,
        !(SubmitError::Timeout matches SubmitError::Rejected(_)),
    decreases events.len(),
{
    if events.len() > 0 {
        assert forall|i: int| 0 <= i < events.drop_first().len()
            implies event_verdict(hash_hex, #[trigger] events.drop_first()[i]) is None by {
            assert(events.drop_first()[i] == events[i + 1]);
        }
        lemma_no_match_times_out(hash_hex, events.drop_first());
    }
}

} // verus!
