use tx3_cardano::pallas;

use tx3_hydra::inputs::{AssetConstraint, InputQuery, InputSelector, Subset};
use tx3_hydra::ledger::HydraLedger;
use tx3_hydra::model::{AssetValue, TxID, Utxo, Value};
use tx3_hydra::store::UtxoSnapshot;

const TEST_ADDRESS: &str = "addr_test1vp7f4380zv203gjqscn5ls4j6s0v976nnqdhds5n78ty6hqu9e072";
const OTHER_ADDRESS: &str = "addr_test1vqeux7xwusdju9dvsj8h7mca9aup2k439kfmwy773xxc2hcu7zy99";
const TEST_POLICY: &str = "954fe5769e9eb8dad54c99f8d62015c813c24f229a4d98dbf05c28b9";
const TEST_ASSET: &str = "434f494e";

fn dummy_utxo(address: &str, lovelace: u64, assets: Vec<(String, AssetValue)>) -> Utxo {
    let mut entries: Vec<(String, AssetValue)> = Vec::new();
    entries.push(("lovelace".to_string(), AssetValue::Lovelace(lovelace)));
    for entry in assets {
        entries.push(entry);
    }
    Utxo {
        address: address.to_string(),
        datum: None,
        datumhash: None,
        inline_datum_hash: None,
        inline_datum_raw: None,
        reference_script: None,
        value: Value { assets: entries },
    }
}

fn coin_asset() -> (String, AssetValue) {
    (
        TEST_POLICY.to_string(),
        AssetValue::Multi(vec![(TEST_ASSET.to_string(), 1)]),
    )
}

fn dummy_key(index: u32) -> TxID {
    format!("{}#{}", "00".repeat(32), index)
}

fn setup_dummy_ledger() -> HydraLedger {
    let utxos = vec![
        (
            dummy_key(0),
            dummy_utxo(TEST_ADDRESS, 1_000_000_000, vec![coin_asset()]),
        ),
        (dummy_key(1), dummy_utxo(OTHER_ADDRESS, 5_000_000, vec![])),
    ];

    HydraLedger {
        utxos: UtxoSnapshot::from_entries(utxos),
        network: 0,
        http_url: "".to_string(),
    }
}

fn bech32_address_bytes(bech32: &str) -> Vec<u8> {
    let address = pallas::ledger::addresses::Address::from_bech32(bech32).unwrap();
    address.to_vec()
}

fn custom_asset_expr(policy: &str, name: &str, amount: i128) -> AssetConstraint {
    AssetConstraint {
        policy: Some(hex_bytes(policy)),
        asset_name: hex_bytes(name),
        amount,
    }
}

fn lovelace_expr(amount: i128) -> AssetConstraint {
    AssetConstraint {
        policy: None,
        asset_name: Vec::new(),
        amount,
    }
}

fn hex_bytes(s: &str) -> Vec<u8> {
    tx3_hydra::text::hex_decode(s).unwrap()
}

#[test]
fn test_utxo_match_asset_presence() {
    let ledger = setup_dummy_ledger();
    let selector = InputSelector::new(ledger, 0);

    let criteria = InputQuery {
        address: None,
        min_amount: Some(vec![custom_asset_expr(TEST_POLICY, TEST_ASSET, 1)]),
        refs: None,
    };

    let result = selector.select(&criteria).unwrap();

    assert_eq!(result.len(), 1);
}

#[test]
fn test_utxo_match_address_and_asset_presence() {
    let ledger = setup_dummy_ledger();
    let selector = InputSelector::new(ledger, 0);

    let criteria = InputQuery {
        address: Some(bech32_address_bytes(TEST_ADDRESS)),
        min_amount: Some(vec![custom_asset_expr(TEST_POLICY, TEST_ASSET, 1)]),
        refs: None,
    };

    let result = selector.select(&criteria).unwrap();

    assert_eq!(result.len(), 1);
}

#[test]
fn test_utxo_match_lovelace_amount() {
    let ledger = setup_dummy_ledger();
    let selector = InputSelector::new(ledger, 0);

    let criteria = InputQuery {
        address: Some(bech32_address_bytes(TEST_ADDRESS)),
        min_amount: Some(vec![lovelace_expr(1_000_000_000)]),
        refs: None,
    };

    let result = selector.select(&criteria).unwrap();

    assert_eq!(result.len(), 1);
}

#[test]
fn test_utxo_excludes_lower_amount() {
    let ledger = setup_dummy_ledger();
    let selector = InputSelector::new(ledger, 0);

    let criteria = InputQuery {
        address: Some(bech32_address_bytes(TEST_ADDRESS)),
        min_amount: Some(vec![lovelace_expr(1_000_000_001)]),
        refs: None,
    };

    let result = selector.select(&criteria).unwrap();

    assert_eq!(result.len(), 0);
}

#[test]
fn select_returns_resolved_fields() {
    let ledger = setup_dummy_ledger();
    let selector = InputSelector::new(ledger, 0);

    let criteria = InputQuery {
        address: Some(bech32_address_bytes(TEST_ADDRESS)),
        min_amount: Some(vec![lovelace_expr(1)]),
        refs: None,
    };

    let result = selector.select(&criteria).unwrap();
    assert_eq!(result.len(), 1);
    let resolved = &result[0];
    assert_eq!(resolved.tx_ref.txid, hex_bytes(&"00".repeat(32)));
    assert_eq!(resolved.tx_ref.index, 0);
    assert_eq!(resolved.address, bech32_address_bytes(TEST_ADDRESS));
    assert!(resolved.datum.is_none());
    assert_eq!(resolved.assets.naked_amount(), 1_000_000_000);
    let key = format!("{TEST_POLICY}.{TEST_ASSET}");
    assert_eq!(resolved.assets.defined_amount(&key), Some(1));
}

#[test]
fn select_by_explicit_ref() {
    let ledger = setup_dummy_ledger();
    let selector = InputSelector::new(ledger, 0);

    let criteria = InputQuery {
        address: None,
        min_amount: None,
        refs: Some(vec![tx3_hydra::utxos::UtxoRefData {
            txid: hex_bytes(&"00".repeat(32)),
            index: 1,
        }]),
    };

    let result = selector.select(&criteria).unwrap();
    assert_eq!(result.len(), 1);
    assert_eq!(result[0].tx_ref.index, 1);
    assert_eq!(result[0].assets.naked_amount(), 5_000_000);
}

#[test]
fn unconstrained_query_is_too_broad() {
    let ledger = setup_dummy_ledger();
    let selector = InputSelector::new(ledger, 0);

    let criteria = InputQuery {
        address: None,
        min_amount: None,
        refs: None,
    };

    let result = selector.select(&criteria);
    assert!(matches!(
        result,
        Err(tx3_hydra::inputs::SelectError::QueryTooBroad)
    ));
}

#[test]
fn oversized_candidate_set_is_too_broad() {
    let mut utxos: Vec<(TxID, Utxo)> = Vec::new();
    for i in 0..51u32 {
        utxos.push((dummy_key(i), dummy_utxo(TEST_ADDRESS, 2_000_000, vec![])));
    }
    let ledger = HydraLedger {
        utxos: UtxoSnapshot::from_entries(utxos),
        network: 0,
        http_url: "".to_string(),
    };
    let selector = InputSelector::new(ledger, 0);

    let criteria = InputQuery {
        address: Some(bech32_address_bytes(TEST_ADDRESS)),
        min_amount: None,
        refs: None,
    };

    let result = selector.select(&criteria);
    assert!(matches!(
        result,
        Err(tx3_hydra::inputs::SelectError::QueryTooBroad)
    ));
}

#[test]
fn ceiling_candidate_set_is_scanned() {
    let mut utxos: Vec<(TxID, Utxo)> = Vec::new();
    for i in 0..50u32 {
        utxos.push((dummy_key(i), dummy_utxo(TEST_ADDRESS, 2_000_000, vec![])));
    }
    let ledger = HydraLedger {
        utxos: UtxoSnapshot::from_entries(utxos),
        network: 0,
        http_url: "".to_string(),
    };
    let selector = InputSelector::new(ledger, 0);

    let criteria = InputQuery {
        address: Some(bech32_address_bytes(TEST_ADDRESS)),
        min_amount: None,
        refs: None,
    };

    let result = selector.select(&criteria).unwrap();
    assert_eq!(result.len(), 1);
}

#[test]
fn bad_query_address_is_reported() {
    let ledger = setup_dummy_ledger();
    let selector = InputSelector::new(ledger, 0);

    let criteria = InputQuery {
        address: Some(vec![0xff]),
        min_amount: None,
        refs: None,
    };

    let result = selector.select(&criteria);
    assert!(matches!(
        result,
        Err(tx3_hydra::inputs::SelectError::BadQueryAddress)
    ));
}

#[test]
fn subset_algebra() {
    let a = Subset::Specific(vec!["a".to_string(), "b".to_string()]);
    let b = Subset::Specific(vec!["b".to_string(), "c".to_string()]);
    let i = Subset::intersection(a, b);
    match &i {
        Subset::Specific(keys) => assert_eq!(keys, &vec!["b".to_string()]),
        Subset::All => panic!("intersection of bounded subsets must be bounded"),
    }
    assert!(!i.is_empty());

    let u = Subset::union(
        Subset::Specific(vec!["a".to_string()]),
        Subset::Specific(vec!["a".to_string(), "c".to_string()]),
    );
    match &u {
        Subset::Specific(keys) => assert_eq!(keys, &vec!["a".to_string(), "c".to_string()]),
        Subset::All => panic!("union of bounded subsets must be bounded"),
    }

    let all = Subset::intersection(Subset::All, Subset::All);
    assert!(matches!(all, Subset::All));
    assert!(!all.is_empty());
    assert!(Subset::Specific(Vec::new()).is_empty());

    let folded = Subset::intersection_of_all(vec![
        Subset::All,
        Subset::Specific(vec!["x".to_string(), "y".to_string()]),
        Subset::Specific(vec!["y".to_string()]),
    ]);
    match &folded {
        Subset::Specific(keys) => assert_eq!(keys, &vec!["y".to_string()]),
        Subset::All => panic!("fold with bounded operands must be bounded"),
    }
}

#[test]
fn asset_query_matches_with_or_without_address() {
    // The same asset query resolves the same UTXO whether or not the
    // address constraint is also supplied.
    let with_address = {
        let selector = InputSelector::new(setup_dummy_ledger(), 0);
        selector
            .select(&InputQuery {
                address: Some(bech32_address_bytes(TEST_ADDRESS)),
                min_amount: Some(vec![custom_asset_expr(TEST_POLICY, TEST_ASSET, 1)]),
                refs: None,
            })
            .unwrap()
    };
    let without_address = {
        let selector = InputSelector::new(setup_dummy_ledger(), 0);
        selector
            .select(&InputQuery {
                address: None,
                min_amount: Some(vec![custom_asset_expr(TEST_POLICY, TEST_ASSET, 1)]),
                refs: None,
            })
            .unwrap()
    };
    assert_eq!(with_address.len(), 1);
    assert_eq!(without_address.len(), 1);
    assert_eq!(with_address[0].tx_ref.txid, without_address[0].tx_ref.txid);
    assert_eq!(with_address[0].tx_ref.index, without_address[0].tx_ref.index);
}

#[test]
fn malformed_snapshot_key_is_reported() {
    // A matched UTXO whose key is not of the "<hex txid>#<index>" form is
    // a distinct error, not a silent skip.
    let utxos = vec![(
        "not-a-reference".to_string(),
        dummy_utxo(TEST_ADDRESS, 2_000_000, vec![]),
    )];
    let ledger = HydraLedger {
        utxos: UtxoSnapshot::from_entries(utxos),
        network: 0,
        http_url: "".to_string(),
    };
    let selector = InputSelector::new(ledger, 0);

    let criteria = InputQuery {
        address: Some(bech32_address_bytes(TEST_ADDRESS)),
        min_amount: None,
        refs: None,
    };

    let result = selector.select(&criteria);
    assert!(matches!(
        result,
        Err(tx3_hydra::inputs::SelectError::BadRef)
    ));
}

#[test]
fn matched_utxo_with_bad_address_is_reported() {
    let mut utxo = dummy_utxo(TEST_ADDRESS, 2_000_000, vec![]);
    utxo.address = "not-bech32".to_string();
    let ledger = HydraLedger {
        utxos: UtxoSnapshot::from_entries(vec![(dummy_key(0), utxo)]),
        network: 0,
        http_url: "".to_string(),
    };
    let selector = InputSelector::new(ledger, 0);

    let criteria = InputQuery {
        address: None,
        min_amount: Some(vec![lovelace_expr(1)]),
        refs: Some(vec![tx3_hydra::utxos::UtxoRefData {
            txid: hex_bytes(&"00".repeat(32)),
            index: 0,
        }]),
    };

    let result = selector.select(&criteria);
    assert!(matches!(
        result,
        Err(tx3_hydra::inputs::SelectError::Resolve(
            tx3_hydra::mapping::ResolveError::BadAddress
        ))
    ));
}

#[test]
fn matched_utxo_with_bad_datum_is_reported() {
    let mut utxo = dummy_utxo(TEST_ADDRESS, 2_000_000, vec![]);
    utxo.inline_datum_raw = Some("zz".to_string());
    let ledger = HydraLedger {
        utxos: UtxoSnapshot::from_entries(vec![(dummy_key(0), utxo)]),
        network: 0,
        http_url: "".to_string(),
    };
    let selector = InputSelector::new(ledger, 0);

    let criteria = InputQuery {
        address: Some(bech32_address_bytes(TEST_ADDRESS)),
        min_amount: None,
        refs: None,
    };

    let result = selector.select(&criteria);
    assert!(matches!(
        result,
        Err(tx3_hydra::inputs::SelectError::Resolve(
            tx3_hydra::mapping::ResolveError::Datum(
                tx3_hydra::datum::DatumError::InvalidHex
            )
        ))
    ));
}

#[test]
fn asset_constraint_checks_exact_amounts() {
    // Presence narrows; the exact predicate enforces the minimum.
    let ledger = setup_dummy_ledger();
    let selector = InputSelector::new(ledger, 0);

    let criteria = InputQuery {
        address: None,
        min_amount: Some(vec![custom_asset_expr(TEST_POLICY, TEST_ASSET, 2)]),
        refs: None,
    };

    let result = selector.select(&criteria).unwrap();
    assert_eq!(result.len(), 0);
}

#[test]
fn zero_amount_asset_constraint_does_not_narrow() {
    // A zero minimum adds no index constraint, so an otherwise empty query
    // stays unbounded and is rejected as too broad.
    let ledger = setup_dummy_ledger();
    let selector = InputSelector::new(ledger, 0);

    let criteria = InputQuery {
        address: None,
        min_amount: Some(vec![custom_asset_expr(TEST_POLICY, TEST_ASSET, 0)]),
        refs: None,
    };

    let result = selector.select(&criteria);
    assert!(matches!(
        result,
        Err(tx3_hydra::inputs::SelectError::QueryTooBroad)
    ));
}

#[test]
fn snapshot_address_lookup_reports_decode_failure() {
    // Undecodable address bytes are a reported error, never a silent
    // empty result.
    let ledger = setup_dummy_ledger();
    let bad = ledger.utxos.get_utxo_by_address(&[0xff]);
    assert!(matches!(
        bad,
        Err(tx3_hydra::utxos::LedgerError::InvalidAddress)
    ));

    let good = ledger
        .utxos
        .get_utxo_by_address(&bech32_address_bytes(TEST_ADDRESS))
        .unwrap();
    assert_eq!(good, vec![dummy_key(0)]);
}
