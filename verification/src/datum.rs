//! Datum decoding: the generic structured-data tree a datum's CBOR encodes
//! (constructor, map, array, big integer, byte string), the generic
//! expression tree the resolver consumes, and the verified mapping between
//! them. Arbitrary-precision integers fold into a 128-bit signed value by
//! big-endian byte accumulation, wrapping silently beyond 128 bits.
use vstd::prelude::*;

use crate::model::Utxo;
use crate::text::{hex_decode, hex_decoding};
use tx3_cardano::pallas::ledger::primitives::{BigInt, PlutusData};

verus! {

broadcast use vstd::std_specs::vec::group_vec_axioms;

/// An arbitrary-precision integer as the wire carries it: either an inline
/// value or the big-endian magnitude bytes of a positive or negative big
/// integer.
pub enum BigIntRepr {
    Int(i128),
    BigUInt(Vec<u8>),
    BigNInt(Vec<u8>),
}

/// A constructor node: the raw CBOR tag, the explicit constructor number
/// carried by the general-form tag, and the fields.
pub struct ConstrTree {
    pub tag: u64,
    pub any_constructor: Option<u64>,
    pub fields: Vec<DatumTree>,
}

/// The structured-data tree of a decoded datum.
pub enum DatumTree {
    Constr(ConstrTree),
    KvMap(Vec<(DatumTree, DatumTree)>),
    BigInt(BigIntRepr),
    Bytes(Vec<u8>),
    Array(Vec<DatumTree>),
}

/// A generic expression tree isomorphic to the datum it was decoded from.
pub enum Expr {
    Struct { constructor: u64, fields: Vec<Expr> },
    List(Vec<Expr>),
    Number(i128),
    Bytes(Vec<u8>),
}

pub ghost enum BigIntReprV {
    Int(i128),
    BigUInt(Seq<u8>),
    BigNInt(Seq<u8>),
}

pub ghost enum DatumTreeV {
    Constr { tag: u64, any_constructor: Option<u64>, fields: Seq<DatumTreeV> },
    KvMap(Seq<(DatumTreeV, DatumTreeV)>),
    BigInt(BigIntReprV),
    Bytes(Seq<u8>),
    Array(Seq<DatumTreeV>),
}

pub ghost enum ExprV {
    Struct { constructor: u64, fields: Seq<ExprV> },
    List(Seq<ExprV>),
    Number(i128),
    Bytes(Seq<u8>),
}

impl View for BigIntRepr {
    type V = BigIntReprV;

    open spec fn view(&self) -> BigIntReprV {
        match self {
            BigIntRepr::Int(n) => BigIntReprV::Int(*n),
            BigIntRepr::BigUInt(b) => BigIntReprV::BigUInt(b@),
            BigIntRepr::BigNInt(b) => BigIntReprV::BigNInt(b@),
        }
    }
}

pub open spec fn datum_tree_view(t: DatumTree) -> DatumTreeV
    decreases t,
{
    match t {
        DatumTree::Constr(c) => DatumTreeV::Constr {
            tag: c.tag,
            any_constructor: c.any_constructor,
            fields: Seq::new(c.fields@.len(), |i: int|
                if 0 <= i < c.fields@.len() {
                    datum_tree_view(c.fields@[i])
                } else {
                    DatumTreeV::Bytes(Seq::empty())
                }),
        },
        DatumTree::KvMap(pairs) => DatumTreeV::KvMap(Seq::new(pairs@.len(), |i: int|
            if 0 <= i < pairs@.len() {
                (datum_tree_view(pairs@[i].0), datum_tree_view(pairs@[i].1))
            } else {
                (DatumTreeV::Bytes(Seq::empty()), DatumTreeV::Bytes(Seq::empty()))
            })),
        DatumTree::BigInt(b) => DatumTreeV::BigInt(b@),
        DatumTree::Bytes(b) => DatumTreeV::Bytes(b@),
        DatumTree::Array(items) => DatumTreeV::Array(Seq::new(items@.len(), |i: int|
            if 0 <= i < items@.len() {
                datum_tree_view(items@[i])
            } else {
                DatumTreeV::Bytes(Seq::empty())
            })),
    }
}

impl View for DatumTree {
    type V = DatumTreeV;

    open spec fn view(&self) -> DatumTreeV {
        datum_tree_view(*self)
    }
}

pub open spec fn expr_view(e: Expr) -> ExprV
    decreases e,
{
    match e {
        Expr::Struct { constructor, fields } => ExprV::Struct {
            constructor,
            fields: Seq::new(fields@.len(), |i: int|
                if 0 <= i < fields@.len() {
                    expr_view(fields@[i])
                } else {
                    ExprV::Number(0)
                }),
        },
        Expr::List(items) => ExprV::List(Seq::new(items@.len(), |i: int|
            if 0 <= i < items@.len() {
                expr_view(items@[i])
            } else {
                ExprV::Number(0)
            })),
        Expr::Number(n) => ExprV::Number(n),
        Expr::Bytes(b) => ExprV::Bytes(b@),
    }
}

impl View for Expr {
    type V = ExprV;

    open spec fn view(&self) -> ExprV {
        expr_view(*self)
    }
}

/// The constructor number a tag denotes: the compact forms cover numbers
/// 0 to 6 and 7 to 127, the general form carries the number explicitly.
/// Anything else denotes constructor 0.
pub open spec fn constr_index_of(tag: u64, any_constructor: Option<u64>) -> u64 {
    if 121 <= tag && tag <= 127 {
        (tag - 121) as u64
    } else if 1280 <= tag && tag <= 1400 {
        (tag - 1280 + 7) as u64
    } else if tag == 102 {
        match any_constructor {
            Some(c) => c,
            None => 0,
        }
    } else {
        0
    }
}

/// The tag encoding a constructor number, inverse of `constr_index_of` on
/// the tags the encoder emits.
pub open spec fn tag_of_constr_index(c: u64) -> (u64, Option<u64>) {
    if c <= 6 {
        ((c + 121) as u64, None::<u64>)
    } else if c <= 127 {
        ((c - 7 + 1280) as u64, None::<u64>)
    } else {
        (102u64, Some(c))
    }
}

pub open spec fn pow2_128() -> int {
    0x80000000000000000000000000000000int * 2
}

/// Big-endian accumulation of magnitude bytes, wrapping at 128 bits.
pub open spec fn be_u128(bytes: Seq<u8>) -> u128
    decreases bytes.len(),
{
    if bytes.len() == 0 {
        0u128
    } else {
        ((be_u128(bytes.drop_last()) * 256 + bytes.last()) % pow2_128()) as u128
    }
}

/// Reinterpretation of an unsigned 128-bit value as signed (two's
/// complement).
pub open spec fn as_signed_128(u: u128) -> i128 {
    if u < 0x80000000000000000000000000000000u128 {
        u as i128
    } else {
        (u - pow2_128()) as i128
    }
}

/// Negation wrapping at the type bound, as the byte-accumulation decode
/// wraps.
pub open spec fn wrapping_neg_128(n: i128) -> i128 {
    if n == i128::MIN {
        n
    } else {
        (-n) as i128
    }
}

/// The 128-bit value an arbitrary-precision integer folds into: inline
/// values stand as they are; magnitude bytes accumulate big-endian, with
/// the sign applied per the integer's tag, everything beyond 128 bits
/// silently wrapping.
pub open spec fn big_int_value(b: BigIntReprV) -> i128 {
    match b {
        BigIntReprV::Int(n) => n,
        BigIntReprV::BigUInt(bytes) => as_signed_128(be_u128(bytes)),
        BigIntReprV::BigNInt(bytes) => wrapping_neg_128(as_signed_128(be_u128(bytes))),
    }
}

/// What decoding a datum tree yields: a constructor becomes a struct under
/// its constructor number, a map becomes the list of its two-element
/// key-value lists, an array becomes a list, a big integer folds to its
/// 128-bit value, bytes stay bytes.
pub open spec fn decode_tree(t: DatumTreeV) -> ExprV
    decreases t,
{
    match t {
        DatumTreeV::Constr { tag, any_constructor, fields } => ExprV::Struct {
            constructor: constr_index_of(tag, any_constructor),
            fields: Seq::new(fields.len(), |i: int|
                if 0 <= i < fields.len() {
                    decode_tree(fields[i])
                } else {
                    ExprV::Number(0)
                }),
        },
        DatumTreeV::KvMap(pairs) => ExprV::List(Seq::new(pairs.len(), |i: int|
            if 0 <= i < pairs.len() {
                ExprV::List(seq![decode_tree(pairs[i].0), decode_tree(pairs[i].1)])
            } else {
                ExprV::Number(0)
            })),
        DatumTreeV::BigInt(b) => ExprV::Number(big_int_value(b)),
        DatumTreeV::Bytes(b) => ExprV::Bytes(b),
        DatumTreeV::Array(items) => ExprV::List(Seq::new(items.len(), |i: int|
            if 0 <= i < items.len() {
                decode_tree(items[i])
            } else {
                ExprV::Number(0)
            })),
    }
}

/// Minimal big-endian magnitude bytes of an unsigned value; zero renders
/// as one zero byte.
pub open spec fn min_be_bytes(m: u128) -> Seq<u8>
    decreases m,
{
    if m < 256 {
        seq![m as u8]
    } else {
        min_be_bytes(m / 256).push((m % 256) as u8)
    }
}

/// What encoding an expression tree yields: the inverse of `decode_tree`
/// on everything `encode_expr` emits. A number within the inline range
/// stays inline, a larger magnitude becomes big-endian bytes under the
/// sign's tag.
pub open spec fn encode_expr(e: ExprV) -> DatumTreeV
    decreases e,
{
    match e {
        ExprV::Struct { constructor, fields } => DatumTreeV::Constr {
            tag: tag_of_constr_index(constructor).0,
            any_constructor: tag_of_constr_index(constructor).1,
            fields: Seq::new(fields.len(), |i: int|
                if 0 <= i < fields.len() {
                    encode_expr(fields[i])
                } else {
                    DatumTreeV::Bytes(Seq::empty())
                }),
        },
        ExprV::List(items) => DatumTreeV::Array(Seq::new(items.len(), |i: int|
            if 0 <= i < items.len() {
                encode_expr(items[i])
            } else {
                DatumTreeV::Bytes(Seq::empty())
            })),
        ExprV::Number(n) => DatumTreeV::BigInt(encode_number(n)),
        ExprV::Bytes(b) => DatumTreeV::Bytes(b),
    }
}

/// The magnitude of a negative value, as an unsigned number.
pub open spec fn neg_magnitude(n: i128) -> u128 {
    (-(n as int)) as u128
}

pub open spec fn encode_number(n: i128) -> BigIntReprV {
    if i64::MIN <= n <= i64::MAX {
        BigIntReprV::Int(n)
    } else if n > 0 {
        BigIntReprV::BigUInt(min_be_bytes(n as u128))
    } else {
        BigIntReprV::BigNInt(min_be_bytes(neg_magnitude(n)))
    }
}

#[verifier::external_type_specification]
#[verifier::external_body]
pub struct ExPlutusData(PlutusData);

#[verifier::external_type_specification]
#[verifier::external_body]
pub struct ExBigInt(BigInt);

/// What the CBOR decode of a datum yields; a function of the bytes alone.
pub uninterp spec fn plutus_decoding(bytes: Seq<u8>) -> Option<DatumTreeV>;

/// Relies on the structured-data codec's `BigInt`: converted one variant
/// arm each, the inline value widened, the magnitude bytes copied.
#[verifier::external_body]
fn tree_from_big_int(b: &BigInt) -> BigIntRepr {
    match b {
        BigInt::Int(x) => BigIntRepr::Int(i128::from(x.clone())),
        BigInt::BigUInt(bytes) => BigIntRepr::BigUInt(bytes.to_vec()),
        BigInt::BigNInt(bytes) => BigIntRepr::BigNInt(bytes.to_vec()),
    }
}

/// Relies on the structured-data codec's `PlutusData`: converted one
/// variant arm each, moving tag, constructor number, fields and bytes.
#[verifier::external_body]
fn tree_from_plutus(d: &PlutusData) -> DatumTree {
    match d {
        PlutusData::Constr(c) => DatumTree::Constr(ConstrTree {
            tag: c.tag,
            any_constructor: c.any_constructor,
            fields: c.fields.iter().map(tree_from_plutus).collect(),
        }),
        PlutusData::Map(m) => DatumTree::KvMap(
            m.iter().map(|p| (tree_from_plutus(&p.0), tree_from_plutus(&p.1))).collect(),
        ),
        PlutusData::Array(a) => DatumTree::Array(a.iter().map(tree_from_plutus).collect()),
        PlutusData::BigInt(b) => DatumTree::BigInt(tree_from_big_int(b)),
        PlutusData::BoundedBytes(b) => DatumTree::Bytes(b.to_vec()),
    }
}

/// Relies on the CBOR codec (`minicbor` decode of `PlutusData`): the
/// decode is a function of the bytes alone, and the result is converted
/// structurally into the library's tree.
#[verifier::external_body]
pub fn decode_plutus(bytes: &[u8]) -> (r: Option<DatumTree>)
    ensures
        match r {
            Some(t) => plutus_decoding(bytes@) == Some(t@),
            None => plutus_decoding(bytes@) is None,
        },
{
    tx3_cardano::pallas::codec::minicbor::decode::<PlutusData>(bytes)
        .ok().map(|d| tree_from_plutus(&d))
}

fn constr_index(tag: u64, any_constructor: &Option<u64>) -> (r: u64)
    ensures
        r == constr_index_of(tag, *any_constructor),
{
    if 121 <= tag && tag <= 127 {
        tag - 121
    } else if 1280 <= tag && tag <= 1400 {
        tag - 1280 + 7
    } else if tag == 102 {
        match any_constructor {
            Some(c) => *c,
            None => 0,
        }
    } else {
        0
    }
}

fn u128_as_signed(u: u128) -> (r: i128)
    ensures
        r == as_signed_128(u),
{
    if u <= i128::MAX as u128 {
        u as i128
    } else {
        let m: u128 = u128::MAX - u;
        -1i128 - (m as i128)
    }
}

fn wrapping_neg_exec(n: i128) -> (r: i128)
    ensures
        r == wrapping_neg_128(n),
{
    if n == i128::MIN {
        n
    } else {
        -n
    }
}

fn be_accumulate(bytes: &Vec<u8>) -> (r: u128)
    ensures
        r == be_u128(bytes@),
{
    let mut acc: u128 = 0;
    let n = bytes.len();
    for i in 0..n
        invariant
            n == bytes@.len(),
            acc == be_u128(bytes@.take(i as int)),
    {
        let ghost a = acc as int;
        let b = bytes[i];
        let mul = acc.wrapping_mul(256);
        let sum = mul.wrapping_add(b as u128);
        proof {
            let m = pow2_128();
            let t = bytes@.take(i + 1);
            assert(t.drop_last() =~= bytes@.take(i as int));
            assert(t.last() == b);
            vstd::arithmetic::div_mod::lemma_add_mod_noop(a * 256, b as int, m);
            vstd::arithmetic::div_mod::lemma_small_mod(b as nat, m as nat);
            assert(mul == (a * 256) % m);
            if mul + b <= u128::MAX {
                vstd::arithmetic::div_mod::lemma_small_mod((mul + b) as nat, m as nat);
            } else {
                vstd::arithmetic::div_mod::lemma_mod_add_multiples_vanish(mul + b - m, m);
                vstd::arithmetic::div_mod::lemma_small_mod((mul + b - m) as nat, m as nat);
            }
            assert(sum == (a * 256 + b) % m);
            assert(sum == be_u128(t));
        }
        acc = sum;
    }
    proof {
        assert(bytes@.take(n as int) == bytes@);
    }
    acc
}

/// Folds an arbitrary-precision integer into its 128-bit value.
pub fn fold_big_int(b: &BigIntRepr) -> (r: i128)
    ensures
        r == big_int_value(b@),
{
    match b {
        BigIntRepr::Int(n) => *n,
        BigIntRepr::BigUInt(bytes) => u128_as_signed(be_accumulate(bytes)),
        BigIntRepr::BigNInt(bytes) => wrapping_neg_exec(u128_as_signed(be_accumulate(bytes))),
    }
}

/// Maps a structured-data tree into the expression tree isomorphic to it.
#[verifier::loop_isolation(false)]
pub fn datum_tree_to_expr(t: &DatumTree) -> (r: Expr)
    ensures
        r@ == decode_tree(t@),
    decreases *t,
{
    match t {
        DatumTree::Constr(c) => {
            let mut fields: Vec<Expr> = Vec::new();
            let n = c.fields.len();
            for i in 0..n
                invariant
                    n == c.fields@.len(),
                    fields@.len() == i,
                    forall|j: int| 0 <= j < i ==> (#[trigger] fields@[j])@
                        == decode_tree(datum_tree_view(c.fields@[j])),
                decreases n - i,
            {
                proof {
                    assert(decreases_to!(*t => c.fields@[i as int]));
                }
                let e = datum_tree_to_expr(&c.fields[i]);
                fields.push(e);
            }
            let r = Expr::Struct { constructor: constr_index(c.tag, &c.any_constructor), fields };
            proof {
                let tv = datum_tree_view(*t);
                match (expr_view(r), decode_tree(tv)) {
                    (ExprV::Struct { constructor: c2, fields: f2 },
                     ExprV::Struct { constructor: c3, fields: f3 }) => {
                        assert(f2 =~= f3);
                    }
                    _ => {}
                }
            }
            r
        }
        DatumTree::KvMap(pairs) => {
            let mut items: Vec<Expr> = Vec::new();
            let n = pairs.len();
            for i in 0..n
                invariant
                    n == pairs@.len(),
                    items@.len() == i,
                    forall|j: int| 0 <= j < i ==> (#[trigger] items@[j])@
                        == ExprV::List(seq![
                            decode_tree(datum_tree_view(pairs@[j].0)),
                            decode_tree(datum_tree_view(pairs@[j].1)),
                        ]),
                decreases n - i,
            {
                proof {
                    assert(decreases_to!(*t => pairs@[i as int].0));
                    assert(decreases_to!(*t => pairs@[i as int].1));
                }
                let k = datum_tree_to_expr(&pairs[i].0);
                let v = datum_tree_to_expr(&pairs[i].1);
                let mut kv: Vec<Expr> = Vec::new();
                kv.push(k);
                kv.push(v);
                items.push(Expr::List(kv));
                proof {
                    let e = items@[i as int];
                    match expr_view(e) {
                        ExprV::List(s) => {
                            assert(s =~= seq![
                                decode_tree(datum_tree_view(pairs@[i as int].0)),
                                decode_tree(datum_tree_view(pairs@[i as int].1)),
                            ]);
                        }
                        _ => {}
                    }
                }
            }
            let r = Expr::List(items);
            proof {
                match (expr_view(r), decode_tree(datum_tree_view(*t))) {
                    (ExprV::List(f2), ExprV::List(f3)) => {
                        assert(f2 =~= f3);
                    }
                    _ => {}
                }
            }
            r
        }
        DatumTree::BigInt(b) => Expr::Number(fold_big_int(b)),
        DatumTree::Bytes(b) => Expr::Bytes(clone_bytes(b)),
        DatumTree::Array(arr) => {
            let mut items: Vec<Expr> = Vec::new();
            let n = arr.len();
            for i in 0..n
                invariant
                    n == arr@.len(),
                    items@.len() == i,
                    forall|j: int| 0 <= j < i ==> (#[trigger] items@[j])@
                        == decode_tree(datum_tree_view(arr@[j])),
                decreases n - i,
            {
                proof {
                    assert(decreases_to!(*t => arr@[i as int]));
                }
                let e = datum_tree_to_expr(&arr[i]);
                items.push(e);
            }
            let r = Expr::List(items);
            proof {
                match (expr_view(r), decode_tree(datum_tree_view(*t))) {
                    (ExprV::List(f2), ExprV::List(f3)) => {
                        assert(f2 =~= f3);
                    }
                    _ => {}
                }
            }
            r
        }
    }
}

/// Copies a byte vector; the copy denotes the same sequence.
pub fn clone_bytes(v: &Vec<u8>) -> (r: Vec<u8>)
    ensures
        r@ == v@,
{
    let mut r: Vec<u8> = Vec::new();
    let n = v.len();
    for i in 0..n
        invariant
            n == v@.len(),
            r@ =~= v@.take(i as int),
    {
        r.push(v[i]);
    }
    proof {
        assert(v@.take(n as int) == v@);
    }
    r
}

fn push_min_be_bytes(out: &mut Vec<u8>, m: u128)
    ensures
        final(out)@ == old(out)@ + min_be_bytes(m),
    decreases m,
{
    if m < 256 {
        out.push(m as u8);
        proof {
            assert(final(out)@ =~= old(out)@ + min_be_bytes(m));
        }
    } else {
        push_min_be_bytes(out, m / 256);
        out.push((m % 256) as u8);
        proof {
            assert(final(out)@ =~= old(out)@ + min_be_bytes(m));
        }
    }
}

fn neg_magnitude_exec(n: i128) -> (r: u128)
    requires
        n < 0,
    ensures
        r == neg_magnitude(n),
{
    if n == i128::MIN {
        0x80000000000000000000000000000000u128
    } else {
        (-n) as u128
    }
}

/// Encodes a 128-bit number as the wire's integer representation: inline
/// within the inline range, otherwise minimal big-endian magnitude bytes
/// under the sign's tag.
pub fn number_to_big_int(n: i128) -> (r: BigIntRepr)
    ensures
        r@ == encode_number(n),
{
    if i64::MIN as i128 <= n && n <= i64::MAX as i128 {
        BigIntRepr::Int(n)
    } else if n > 0 {
        let mut bytes: Vec<u8> = Vec::new();
        push_min_be_bytes(&mut bytes, n as u128);
        BigIntRepr::BigUInt(bytes)
    } else {
        let mut bytes: Vec<u8> = Vec::new();
        push_min_be_bytes(&mut bytes, neg_magnitude_exec(n));
        BigIntRepr::BigNInt(bytes)
    }
}

fn tag_of_constr(c: u64) -> (r: (u64, Option<u64>))
    ensures
        r == tag_of_constr_index(c),
{
    if c <= 6 {
        (c + 121, None)
    } else if c <= 127 {
        (c - 7 + 1280, None)
    } else {
        (102, Some(c))
    }
}

/// Maps an expression tree back into a structured-data tree; the inverse
/// of `datum_tree_to_expr` on everything this encoder emits.
#[verifier::loop_isolation(false)]
pub fn expr_to_datum_tree(e: &Expr) -> (r: DatumTree)
    ensures
        r@ == encode_expr(e@),
    decreases *e,
{
    match e {
        Expr::Struct { constructor, fields } => {
            let mut out: Vec<DatumTree> = Vec::new();
            let n = fields.len();
            for i in 0..n
                invariant
                    n == fields@.len(),
                    out@.len() == i,
                    forall|j: int| 0 <= j < i ==> (#[trigger] out@[j])@
                        == encode_expr(expr_view(fields@[j])),
                decreases n - i,
            {
                proof {
                    assert(decreases_to!(*e => fields@[i as int]));
                }
                let t = expr_to_datum_tree(&fields[i]);
                out.push(t);
            }
            let tag = tag_of_constr(*constructor);
            let r = DatumTree::Constr(ConstrTree {
                tag: tag.0,
                any_constructor: tag.1,
                fields: out,
            });
            proof {
                match (datum_tree_view(r), encode_expr(expr_view(*e))) {
                    (DatumTreeV::Constr { fields: f2, .. },
                     DatumTreeV::Constr { fields: f3, .. }) => {
                        assert(f2 =~= f3);
                    }
                    _ => {}
                }
            }
            r
        }
        Expr::List(items) => {
            let mut out: Vec<DatumTree> = Vec::new();
            let n = items.len();
            for i in 0..n
                invariant
                    n == items@.len(),
                    out@.len() == i,
                    forall|j: int| 0 <= j < i ==> (#[trigger] out@[j])@
                        == encode_expr(expr_view(items@[j])),
                decreases n - i,
            {
                proof {
                    assert(decreases_to!(*e => items@[i as int]));
                }
                let t = expr_to_datum_tree(&items[i]);
                out.push(t);
            }
            let r = DatumTree::Array(out);
            proof {
                match (datum_tree_view(r), encode_expr(expr_view(*e))) {
                    (DatumTreeV::Array(f2), DatumTreeV::Array(f3)) => {
                        assert(f2 =~= f3);
                    }
                    _ => {}
                }
            }
            r
        }
        Expr::Number(n) => DatumTree::BigInt(number_to_big_int(*n)),
        Expr::Bytes(b) => DatumTree::Bytes(clone_bytes(b)),
    }
}

/// Minimal magnitude bytes accumulate back to the value they render.
proof fn lemma_be_of_min_bytes(m: u128)
    ensures
        be_u128(min_be_bytes(m)) == m,
    decreases m,
{
    if m < 256 {
        let s = min_be_bytes(m);
        assert(s == seq![m as u8]);
        assert(s.drop_last() =~= Seq::<u8>::empty());
        assert(s.last() == m as u8);
        vstd::arithmetic::div_mod::lemma_small_mod(m as nat, pow2_128() as nat);
        assert(be_u128(s) == ((be_u128(s.drop_last()) * 256 + s.last()) % pow2_128()) as u128);
        assert(be_u128(s.drop_last()) == 0);
        assert((0 * 256 + m as u8 as int) % pow2_128() == m);
    } else {
        lemma_be_of_min_bytes(m / 256);
        let s = min_be_bytes(m);
        assert(s.drop_last() =~= min_be_bytes(m / 256));
        assert(s.last() == (m % 256) as u8);
        vstd::arithmetic::div_mod::lemma_fundamental_div_mod(m as int, 256);
        vstd::arithmetic::div_mod::lemma_small_mod(m as nat, pow2_128() as nat);
    }
}

/// Every encoded number decodes back to itself; the wrap at the type bound
/// and the sign tags cancel exactly across the whole 128-bit range.
proof fn lemma_number_round_trip(n: i128)
    ensures
        big_int_value(encode_number(n)) == n,
{
    if i64::MIN <= n <= i64::MAX {
    } else if n > 0 {
        lemma_be_of_min_bytes(n as u128);
    } else {
        let m = neg_magnitude(n);
        lemma_be_of_min_bytes(m);
    }
}

/// Law: decoding an encoded expression tree yields an equal tree, for every
/// constructor number, every integer in the 128-bit signed range, and every
/// nesting of structs, lists and byte strings.
pub proof fn lemma_datum_round_trip(e: ExprV)
    ensures
        decode_tree(encode_expr(e)) == e,
    decreases e,
{
    match e {
        ExprV::Struct { constructor, fields } => {
            match (decode_tree(encode_expr(e)), e) {
                (ExprV::Struct { constructor: c2, fields: f2 },
                 ExprV::Struct { constructor: c3, fields: f3 }) => {
                    assert(c2 == c3);
                    assert(f2.len() == f3.len());
                    assert forall|i: int| 0 <= i < f2.len() implies f2[i] == f3[i] by {
                        lemma_datum_round_trip(fields[i]);
                    }
                    assert(f2 =~= f3);
                }
                _ => {}
            }
        }
        ExprV::List(items) => {
            match (decode_tree(encode_expr(e)), e) {
                (ExprV::List(f2), ExprV::List(f3)) => {
                    assert(f2.len() == f3.len());
                    assert forall|i: int| 0 <= i < f2.len() implies f2[i] == f3[i] by {
                        lemma_datum_round_trip(items[i]);
                    }
                    assert(f2 =~= f3);
                }
                _ => {}
            }
        }
        ExprV::Number(n) => {
            lemma_number_round_trip(n);
        }
        ExprV::Bytes(_) => {}
    }
}

/// Why decoding a UTXO's datum failed.
#[derive(Clone, Copy, Debug, PartialEq, Eq, Structural)]
pub enum DatumError {
    /// The base16 text of the raw datum is malformed.
    InvalidHex,
    /// The raw bytes are not a CBOR structured-data value.
    InvalidCbor,
    /// Only a datum hash is present; resolution needs a concrete value.
    HashOnly,
}

/// What `decode_datum` yields on a UTXO, over the named CBOR decode.
pub open spec fn datum_decoding(utxo: Utxo) -> Result<Option<ExprV>, DatumError> {
    match utxo.inline_datum_raw {
        Some(h) => match hex_decoding(h@) {
            Some(bytes) => match plutus_decoding(bytes) {
                Some(t) => Ok(Some(decode_tree(t))),
                None => Err(DatumError::InvalidCbor),
            },
            None => Err(DatumError::InvalidHex),
        },
        None => if utxo.datum is Some {
            Err(DatumError::HashOnly)
        } else {
            Ok(None)
        },
    }
}

/// Selects the single populated datum representation of a UTXO and decodes
/// it: the raw base16 CBOR takes precedence; a bare datum hash is an error,
/// since resolution needs a concrete value; no datum at all is no error.
pub fn decode_datum(utxo: &Utxo) -> (r: Result<Option<Expr>, DatumError>)
    ensures
        match r {
            Ok(Some(e)) => datum_decoding(*utxo) == Ok::<Option<ExprV>, DatumError>(Some(e@)),
            Ok(None) => datum_decoding(*utxo) == Ok::<Option<ExprV>, DatumError>(None::<ExprV>),
            Err(err) => datum_decoding(*utxo) == Err::<Option<ExprV>, DatumError>(err),
        },
{
    match &utxo.inline_datum_raw {
        Some(h) => {
            let bytes = match hex_decode(h.as_str()) {
                Some(b) => b,
                None => {
                    return Err(DatumError::InvalidHex);
                }
            };
            let tree = match decode_plutus(bytes.as_slice()) {
                Some(t) => t,
                None => {
                    return Err(DatumError::InvalidCbor);
                }
            };
            Ok(Some(datum_tree_to_expr(&tree)))
        }
        None => {
            if utxo.datum.is_some() {
                Err(DatumError::HashOnly)
            } else {
                Ok(None)
            }
        }
    }
}

} // verus!

