use tx3_hydra::mapping::{decode_assets, AssetsError};
use tx3_hydra::model::{
    AssetValue, Event, HeadStatus, HydraPParams, HydraPParamsPlutusVersion, NewTx, Progress,
    Transaction, Utxo, ValidationError, Value,
};
use tx3_hydra::store::{LedgerStore, UtxoSnapshot};
use tx3_hydra::submit::{
    decode_payload, prepare_submission, ConfirmationWaiter, Encoding, SubmitError,
};

fn plain_utxo(address: &str, lovelace: u64) -> Utxo {
    Utxo {
        address: address.to_string(),
        datum: None,
        datumhash: None,
        inline_datum_hash: None,
        inline_datum_raw: None,
        reference_script: None,
        value: Value {
            assets: vec![("lovelace".to_string(), AssetValue::Lovelace(lovelace))],
        },
    }
}

fn snapshot_of(keys: &[&str]) -> Vec<(String, Utxo)> {
    keys.iter()
        .map(|k| (k.to_string(), plain_utxo("addr_test1xyz", 1)))
        .collect()
}

#[test]
fn snapshot_updates_fully_replace() {
    // After the second update the store holds exactly the second map: no
    // entry of the first survives.
    let mut store = LedgerStore::new();
    store.apply_snapshot(UtxoSnapshot::from_entries(snapshot_of(&["a#0", "b#1"])));
    store.apply_snapshot(UtxoSnapshot::from_entries(snapshot_of(&["c#2"])));
    let view = store.read_snapshot();
    assert_eq!(view.len(), 1);
    assert!(view.get(&"c#2".to_string()).is_some());
    assert!(view.get(&"a#0".to_string()).is_none());
    assert!(view.get(&"b#1".to_string()).is_none());
}

#[test]
fn bootstrap_replaces_utxos_and_status() {
    let mut store = LedgerStore::new();
    assert!(matches!(store.read_head_status(), HeadStatus::Closed));
    store.apply_bootstrap(
        HeadStatus::Initializing,
        UtxoSnapshot::from_entries(snapshot_of(&["a#0"])),
    );
    assert!(matches!(store.read_head_status(), HeadStatus::Initializing));
    assert_eq!(store.read_snapshot().len(), 1);
}

#[test]
fn events_drive_the_store() {
    let mut store = LedgerStore::new();

    let greeted = store.apply_event(Event::Greetings {
        head_status: HeadStatus::Idle,
        snapshot: snapshot_of(&["a#0"]),
    });
    assert!(greeted.is_none());
    assert!(matches!(store.read_head_status(), HeadStatus::Idle));
    assert_eq!(store.read_snapshot().len(), 1);

    let confirmed = store.apply_event(Event::SnapshotConfirmed {
        snapshot: snapshot_of(&["b#1", "c#2"]),
        seq: 9,
        timestamp: "2024-01-01T00:00:00Z".to_string(),
    });
    assert!(confirmed.is_none());
    assert_eq!(store.read_snapshot().len(), 2);
    let progress: Progress = store.read_progress();
    assert_eq!(progress.seq, 9);
    assert_eq!(progress.timestamp, "2024-01-01T00:00:00Z");

    let opened = store.apply_event(Event::HeadIsOpen {
        snapshot: snapshot_of(&["d#3"]),
    });
    assert!(opened.is_none());
    assert!(matches!(store.read_head_status(), HeadStatus::Open));
    assert_eq!(store.read_snapshot().len(), 1);

    // Validation outcomes never touch the store; they are republished.
    let valid = store.apply_event(Event::TxValid { tx_id: "ff".to_string() });
    assert!(matches!(valid, Some(Event::TxValid { .. })));
    assert_eq!(store.read_snapshot().len(), 1);
    assert_eq!(store.read_progress().seq, 9);

    let invalid = store.apply_event(Event::TxInvalid {
        transaction: Transaction { tx_id: "ff".to_string() },
        validation_error: ValidationError { reason: "why".to_string() },
    });
    assert!(matches!(invalid, Some(Event::TxInvalid { .. })));
    assert_eq!(store.read_snapshot().len(), 1);
}

#[test]
fn decode_assets_is_order_independent() {
    let forwards = Value {
        assets: vec![
            ("lovelace".to_string(), AssetValue::Lovelace(7)),
            (
                "aa".to_string(),
                AssetValue::Multi(vec![("01".to_string(), 3), ("02".to_string(), 4)]),
            ),
        ],
    };
    let backwards = Value {
        assets: vec![
            (
                "aa".to_string(),
                AssetValue::Multi(vec![("02".to_string(), 4), ("01".to_string(), 3)]),
            ),
            ("lovelace".to_string(), AssetValue::Lovelace(7)),
        ],
    };
    let a = decode_assets(&forwards).unwrap();
    let b = decode_assets(&backwards).unwrap();
    assert_eq!(a.naked_amount(), 7);
    assert_eq!(b.naked_amount(), 7);
    for key in ["aa.01", "aa.02"] {
        assert_eq!(
            a.defined_amount(&key.to_string()),
            b.defined_amount(&key.to_string())
        );
    }
    assert_eq!(a.defined_amount(&"aa.01".to_string()), Some(3));
    assert_eq!(a.defined_amount(&"aa.02".to_string()), Some(4));
    assert_eq!(a.defined_amount(&"aa.03".to_string()), None);
}

#[test]
fn decode_assets_rejects_ill_shapes() {
    let lovelace_nested = Value {
        assets: vec![("lovelace".to_string(), AssetValue::Multi(vec![]))],
    };
    assert!(matches!(
        decode_assets(&lovelace_nested),
        Err(AssetsError::LovelaceShape)
    ));

    let policy_plain = Value {
        assets: vec![("aa".to_string(), AssetValue::Lovelace(1))],
    };
    assert!(matches!(
        decode_assets(&policy_plain),
        Err(AssetsError::PolicyShape)
    ));

    let policy_bad_hex = Value {
        assets: vec![("not-hex".to_string(), AssetValue::Multi(vec![]))],
    };
    assert!(matches!(
        decode_assets(&policy_bad_hex),
        Err(AssetsError::PolicyHex)
    ));

    let name_bad_hex = Value {
        assets: vec![(
            "aa".to_string(),
            AssetValue::Multi(vec![("q".to_string(), 1)]),
        )],
    };
    assert!(matches!(
        decode_assets(&name_bad_hex),
        Err(AssetsError::NameHex)
    ));
}

#[test]
fn uppercase_policy_keys_normalize() {
    // Two different spellings of the same policy merge under the canonical
    // lowercase key.
    let value = Value {
        assets: vec![
            (
                "AB".to_string(),
                AssetValue::Multi(vec![("01".to_string(), 2)]),
            ),
            (
                "ab".to_string(),
                AssetValue::Multi(vec![("01".to_string(), 5)]),
            ),
        ],
    };
    let decoded = decode_assets(&value).unwrap();
    assert_eq!(decoded.defined_amount(&"ab.01".to_string()), Some(7));
}

#[test]
fn payload_decoding_both_encodings() {
    assert_eq!(
        decode_payload(&Encoding::Hex, "010203"),
        Some(vec![1, 2, 3])
    );
    assert_eq!(
        decode_payload(&Encoding::Base64, "AQID"),
        Some(vec![1, 2, 3])
    );
    assert_eq!(decode_payload(&Encoding::Hex, "01020"), None);
    assert_eq!(decode_payload(&Encoding::Base64, "!!"), None);
}

#[test]
fn submit_rejects_invalid_bytes_before_any_write() {
    // Structurally invalid bytes fail during preparation: no envelope for
    // them ever exists, so nothing can reach the socket.
    let garbage = prepare_submission(&Encoding::Hex, "deadbeef");
    assert!(matches!(garbage, Err(SubmitError::UndecodableTx)));

    let unparsable = prepare_submission(&Encoding::Hex, "zz");
    assert!(matches!(unparsable, Err(SubmitError::BadPayload)));
}

#[test]
fn submit_accepts_structurally_valid_tx() {
    // A minimal era tx: empty inputs and outputs, fee zero, no witnesses,
    // success flag true, no auxiliary data.
    let tx_hex = "84a3008001800200a0f5f6";
    let prepared = prepare_submission(&Encoding::Hex, tx_hex).unwrap();
    assert_eq!(prepared.message.cbor_hex, tx_hex);
    assert_eq!(prepared.message.tx_type, "Tx ConwayEra");
    assert_eq!(prepared.message.description, "Tx3 Transaction");
    // The hash matches what the transaction codec computes directly.
    let raw = tx3_hydra::text::hex_decode(tx_hex).unwrap();
    let metx = tx3_cardano::pallas::ledger::traverse::MultiEraTx::decode(&raw).unwrap();
    assert_eq!(
        prepared.hash_hex,
        tx3_hydra::text::hex_encode(metx.hash().as_slice())
    );

    // The same bytes with the success flag false decode but are invalid.
    let failed = prepare_submission(&Encoding::Hex, "84a3008001800200a0f4f6");
    assert!(matches!(failed, Err(SubmitError::InvalidTx)));
}

#[test]
fn confirmation_matches_only_its_hash() {
    let waiter = ConfirmationWaiter::new("abcd".to_string());

    let other = waiter.on_event(&Event::TxValid { tx_id: "ffff".to_string() });
    assert!(other.is_none());

    let snapshot = waiter.on_event(&Event::HeadIsOpen { snapshot: vec![] });
    assert!(snapshot.is_none());

    let confirmed = waiter.on_event(&Event::TxValid { tx_id: "abcd".to_string() });
    match confirmed {
        Some(Ok(h)) => assert_eq!(h, "abcd"),
        _ => panic!("a matching valid event must confirm"),
    }

    let rejected = waiter.on_event(&Event::TxInvalid {
        transaction: Transaction { tx_id: "abcd".to_string() },
        validation_error: ValidationError { reason: "missing input".to_string() },
    });
    match rejected {
        Some(Err(SubmitError::Rejected(reason))) => assert_eq!(reason, "missing input"),
        _ => panic!("a matching invalid event must reject with the head's reason"),
    }
}

#[test]
fn timeout_is_not_a_rejection() {
    // A wait that saw no matching event ends in the distinct timeout error.
    let waiter = ConfirmationWaiter::new("abcd".to_string());
    assert!(waiter
        .on_event(&Event::TxValid { tx_id: "0000".to_string() })
        .is_none());
    let outcome = waiter.on_timeout();
    assert!(matches!(outcome, SubmitError::Timeout));
    assert!(!matches!(outcome, SubmitError::Rejected(_)));
}

#[test]
fn pparams_mapping_is_field_exact() {
    let pparams = HydraPParams {
        tx_fee_per_byte: 44,
        tx_fee_fixed: 155381,
        utxo_cost_per_byte: 4310,
        cost_models: vec![
            (HydraPParamsPlutusVersion::PlutusV1, vec![1, 2, 3]),
            (HydraPParamsPlutusVersion::PlutusV3, vec![9]),
        ],
    };
    let mapped = pparams.to_tx3_pparams(0);
    assert_eq!(mapped.network, 0);
    assert_eq!(mapped.min_fee_coefficient, 44);
    assert_eq!(mapped.min_fee_constant, 155381);
    assert_eq!(mapped.coins_per_utxo_byte, 4310);
    assert_eq!(mapped.cost_models.len(), 2);
    assert_eq!(mapped.cost_models[0].0, 0);
    assert_eq!(mapped.cost_models[0].1, vec![1, 2, 3]);
    assert_eq!(mapped.cost_models[1].0, 2);
    assert_eq!(mapped.cost_models[1].1, vec![9]);
}

#[test]
fn new_tx_envelope_hex_encodes_body() {
    let envelope = NewTx::new(vec![0xde, 0xad, 0xbe, 0xef]);
    assert_eq!(envelope.cbor_hex, "deadbeef");
    assert_eq!(envelope.tx_type, "Tx ConwayEra");
    assert_eq!(envelope.description, "Tx3 Transaction");
}

#[test]
fn value_getters_follow_the_dual_shape() {
    let value = Value {
        assets: vec![
            ("lovelace".to_string(), AssetValue::Lovelace(5)),
            (
                "aa".to_string(),
                AssetValue::Multi(vec![("01".to_string(), 2)]),
            ),
        ],
    };
    assert_eq!(value.lovelace(), 5);
    let by_policy = value.assets_by_policy(&"aa".to_string());
    assert_eq!(by_policy.len(), 1);
    assert_eq!(by_policy[0].0, "01");
    assert_eq!(by_policy[0].1, 2);
    // A policy key with a plain amount yields no nested map, and the
    // lovelace key is never a policy.
    assert_eq!(value.assets_by_policy(&"lovelace".to_string()).len(), 0);
    assert_eq!(value.assets_by_policy(&"bb".to_string()).len(), 0);
}
