use tx3_hydra::datum::{
    datum_tree_to_expr, decode_datum, expr_to_datum_tree, fold_big_int, number_to_big_int,
    BigIntRepr, ConstrTree, DatumError, DatumTree, Expr,
};
use tx3_hydra::model::{ReferenceScript, Utxo, Value};
use tx3_hydra::text::{hex_decode, hex_encode, parse_u32, push_decimal};
use tx3_hydra::utxos::{format_ref, parse_txid};

fn bare_utxo() -> Utxo {
    Utxo {
        address: "addr_test1vqeux7xwusdju9dvsj8h7mca9aup2k439kfmwy773xxc2hcu7zy99".to_string(),
        datum: None,
        datumhash: None,
        inline_datum_hash: None,
        inline_datum_raw: None,
        reference_script: None,
        value: Value { assets: Vec::new() },
    }
}

#[test]
fn hex_encode_decode_round_trip() {
    let bytes: Vec<u8> = vec![0x00, 0x0f, 0xa5, 0xff];
    let text = hex_encode(bytes.as_slice());
    assert_eq!(text, "000fa5ff");
    assert_eq!(hex_decode(&text), Some(bytes));
    // Uppercase digits decode too; odd lengths and stray characters do not.
    assert_eq!(hex_decode("A5"), Some(vec![0xa5]));
    assert_eq!(hex_decode("a5f"), None);
    assert_eq!(hex_decode("zz"), None);
    assert_eq!(hex_decode(""), Some(Vec::new()));
}

#[test]
fn decimal_format_and_parse() {
    let mut s = String::new();
    push_decimal(&mut s, 0);
    assert_eq!(s, "0");
    let mut s2 = String::new();
    push_decimal(&mut s2, 4294967295);
    assert_eq!(s2, "4294967295");
    assert_eq!(parse_u32("0"), Some(0));
    assert_eq!(parse_u32("007"), Some(7));
    assert_eq!(parse_u32("4294967295"), Some(u32::MAX));
    assert_eq!(parse_u32("4294967296"), None);
    assert_eq!(parse_u32(""), None);
    assert_eq!(parse_u32("12a"), None);
}

#[test]
fn txid_key_round_trip() {
    let key = format!("{}#{}", "ab".repeat(32), 7);
    let parsed = parse_txid(&key).unwrap();
    assert_eq!(parsed.txid, hex_decode(&"ab".repeat(32)).unwrap());
    assert_eq!(parsed.index, 7);
    assert_eq!(format_ref(&parsed), key);

    assert!(parse_txid("deadbeef").is_none());
    assert!(parse_txid("xyz#1").is_none());
    assert!(parse_txid("abcd#").is_none());
    assert!(parse_txid("abcd#9999999999").is_none());
}

#[test]
fn big_int_folding() {
    assert_eq!(fold_big_int(&BigIntRepr::Int(-42)), -42);
    // Big-endian accumulation: [1, 0] is 256.
    assert_eq!(fold_big_int(&BigIntRepr::BigUInt(vec![1, 0])), 256);
    assert_eq!(fold_big_int(&BigIntRepr::BigNInt(vec![1, 0])), -256);
    // Zero-length magnitudes fold to zero.
    assert_eq!(fold_big_int(&BigIntRepr::BigUInt(Vec::new())), 0);
    // Beyond 128 bits the value silently wraps: 17 magnitude bytes with a
    // leading 0x01 drop the high bit.
    let mut seventeen = vec![0x01u8];
    seventeen.extend(vec![0u8; 16]);
    assert_eq!(fold_big_int(&BigIntRepr::BigUInt(seventeen)), 0);
}

#[test]
fn number_encoding_chooses_representation() {
    assert!(matches!(number_to_big_int(7), BigIntRepr::Int(7)));
    assert!(matches!(number_to_big_int(i64::MIN as i128), BigIntRepr::Int(_)));
    match number_to_big_int(i64::MAX as i128 + 1) {
        BigIntRepr::BigUInt(bytes) => assert_eq!(bytes, vec![0x80, 0, 0, 0, 0, 0, 0, 0]),
        _ => panic!("positive value past the inline range must be magnitude bytes"),
    }
    match number_to_big_int(i64::MIN as i128 - 1) {
        BigIntRepr::BigNInt(bytes) => assert_eq!(bytes, vec![0x80, 0, 0, 0, 0, 0, 0, 1]),
        _ => panic!("negative value past the inline range must be magnitude bytes"),
    }
}

#[test]
fn datum_tree_round_trip_all_variants() {
    // A struct with every expression variant and both integer signs at the
    // edges of the 128-bit range decodes back from its encoding unchanged.
    let tree = Expr::Struct {
        constructor: 3,
        fields: vec![
            Expr::Number(i128::MAX),
            Expr::Number(i128::MIN),
            Expr::Number(0),
            Expr::Bytes(vec![0xde, 0xad]),
            Expr::List(vec![Expr::Number(-1), Expr::Struct { constructor: 200, fields: vec![] }]),
        ],
    };
    let encoded = expr_to_datum_tree(&tree);
    let decoded = datum_tree_to_expr(&encoded);
    assert_exprs_equal(&tree, &decoded);
}

fn assert_exprs_equal(a: &Expr, b: &Expr) {
    match (a, b) {
        (
            Expr::Struct { constructor: c1, fields: f1 },
            Expr::Struct { constructor: c2, fields: f2 },
        ) => {
            assert_eq!(c1, c2);
            assert_eq!(f1.len(), f2.len());
            for i in 0..f1.len() {
                assert_exprs_equal(&f1[i], &f2[i]);
            }
        }
        (Expr::List(f1), Expr::List(f2)) => {
            assert_eq!(f1.len(), f2.len());
            for i in 0..f1.len() {
                assert_exprs_equal(&f1[i], &f2[i]);
            }
        }
        (Expr::Number(n1), Expr::Number(n2)) => assert_eq!(n1, n2),
        (Expr::Bytes(b1), Expr::Bytes(b2)) => assert_eq!(b1, b2),
        _ => panic!("expression variants differ"),
    }
}

#[test]
fn constructor_tags_round_trip() {
    // The compact tag forms cover constructors 0..=6 and 7..=127; larger
    // numbers ride the general form. All decode back exactly.
    for c in [0u64, 6, 7, 127, 128, 5000] {
        let tree = Expr::Struct { constructor: c, fields: vec![] };
        let decoded = datum_tree_to_expr(&expr_to_datum_tree(&tree));
        match decoded {
            Expr::Struct { constructor, .. } => assert_eq!(constructor, c),
            _ => panic!("a struct must decode as a struct"),
        }
    }
}

#[test]
fn map_decodes_as_pair_lists() {
    let tree = DatumTree::KvMap(vec![(
        DatumTree::BigInt(BigIntRepr::Int(1)),
        DatumTree::Bytes(vec![0xaa]),
    )]);
    let expr = datum_tree_to_expr(&tree);
    match expr {
        Expr::List(items) => {
            assert_eq!(items.len(), 1);
            match &items[0] {
                Expr::List(kv) => {
                    assert_eq!(kv.len(), 2);
                    assert!(matches!(kv[0], Expr::Number(1)));
                    assert!(matches!(&kv[1], Expr::Bytes(b) if b == &vec![0xaa]));
                }
                _ => panic!("a map entry must decode as a two-element list"),
            }
        }
        _ => panic!("a map must decode as a list"),
    }
}

#[test]
fn decode_datum_reads_raw_cbor() {
    // d8799f182aff is CBOR for constructor 0 with the single field 42.
    let mut utxo = bare_utxo();
    utxo.inline_datum_raw = Some("d8799f182aff".to_string());
    let decoded = decode_datum(&utxo).unwrap().unwrap();
    match decoded {
        Expr::Struct { constructor, fields } => {
            assert_eq!(constructor, 0);
            assert_eq!(fields.len(), 1);
            assert!(matches!(fields[0], Expr::Number(42)));
        }
        _ => panic!("a constructor datum must decode as a struct"),
    }
}

#[test]
fn decode_datum_without_datum_is_none() {
    let utxo = bare_utxo();
    assert!(decode_datum(&utxo).unwrap().is_none());
}

#[test]
fn decode_datum_rejects_bad_hex() {
    let mut utxo = bare_utxo();
    utxo.inline_datum_raw = Some("zz".to_string());
    assert!(matches!(decode_datum(&utxo), Err(DatumError::InvalidHex)));
}

#[test]
fn decode_datum_rejects_bad_cbor() {
    let mut utxo = bare_utxo();
    utxo.inline_datum_raw = Some("ff".to_string());
    assert!(matches!(decode_datum(&utxo), Err(DatumError::InvalidCbor)));
}

#[test]
fn decode_datum_rejects_hash_only() {
    let mut utxo = bare_utxo();
    utxo.datum = Some("aa".repeat(32));
    assert!(matches!(decode_datum(&utxo), Err(DatumError::HashOnly)));
}

#[test]
fn raw_datum_takes_precedence_over_hash() {
    let mut utxo = bare_utxo();
    utxo.datum = Some("aa".repeat(32));
    utxo.inline_datum_raw = Some("182a".to_string());
    let decoded = decode_datum(&utxo).unwrap().unwrap();
    assert!(matches!(decoded, Expr::Number(42)));
}

#[test]
fn reference_script_fields_carry() {
    let script = ReferenceScript {
        cbor_hex: "8200".to_string(),
        description: "".to_string(),
        script_type: "SimpleScript".to_string(),
    };
    let mut utxo = bare_utxo();
    utxo.reference_script = Some(script);
    assert!(decode_datum(&utxo).unwrap().is_none());
    // A constructor tree built by hand decodes like its encoded form.
    let constr = DatumTree::Constr(ConstrTree {
        tag: 121,
        any_constructor: None,
        fields: vec![DatumTree::Bytes(vec![1, 2, 3])],
    });
    match datum_tree_to_expr(&constr) {
        Expr::Struct { constructor, fields } => {
            assert_eq!(constructor, 0);
            assert_eq!(fields.len(), 1);
        }
        _ => panic!("a constructor tree must decode as a struct"),
    }
}
