//! Canonical asset totals: decoding a UTXO's wire value map into per-asset
//! amounts. The `"lovelace"` key contributes a naked amount; every other
//! key is a policy id in base16 whose nested map contributes one amount per
//! asset name. Totals accumulate monoid-style, so the result is independent
//! of the order in which the wire delivered the keys.
use vstd::prelude::*;

use crate::alist::{alist_get, alist_keys_unique, alist_lookup};
use crate::datum::{decode_datum, datum_decoding, DatumError, Expr, ExprV};
use crate::model::{AssetValue, Utxo, Value};
use crate::utxos::{bech32_bytes_of, bech32_to_address_bytes, UtxoRefData};
use crate::text::{hex_bytes_of, hex_decode, hex_decoding, hex_encode, hex_encoding, push_char};

verus! {

broadcast use vstd::seq_lib::group_seq_properties;

/// Asset totals as contracts speak of them: a naked amount and a map from
/// canonical asset keys to amounts, all unbounded.
pub ghost struct AssetsModel {
    pub naked: int,
    pub defined: Map<Seq<char>, int>,
}

pub open spec fn empty_model() -> AssetsModel {
    AssetsModel { naked: 0, defined: Map::empty() }
}

pub open spec fn total_of(m: AssetsModel, k: Seq<char>) -> int {
    if m.defined.contains_key(k) {
        m.defined[k]
    } else {
        0
    }
}

/// The canonical key of a defined asset: the policy bytes and asset-name
/// bytes, rendered in lowercase base16 around a dot.
pub open spec fn asset_key(policy: Seq<u8>, name: Seq<u8>) -> Seq<char> {
    hex_encoding(policy) + seq!['.'] + hex_encoding(name)
}

/// One amount the value map contributes to the totals.
pub ghost enum Contrib {
    Naked(u64),
    Defined(Seq<char>, u64),
}

pub open spec fn contrib_applied(m: AssetsModel, c: Contrib) -> AssetsModel {
    match c {
        Contrib::Naked(n) => AssetsModel { naked: m.naked + n, ..m },
        Contrib::Defined(k, n) => AssetsModel {
            defined: m.defined.insert(k, total_of(m, k) + n),
            ..m
        },
    }
}

pub open spec fn contribs_applied(m: AssetsModel, cs: Seq<Contrib>) -> AssetsModel
    decreases cs.len(),
{
    if cs.len() == 0 {
        m
    } else {
        contrib_applied(contribs_applied(m, cs.drop_last()), cs.last())
    }
}

/// The contributions of one nested asset map under a policy.
pub open spec fn name_contribs(policy: Seq<u8>, names: Seq<(String, u64)>) -> Seq<Contrib> {
    names.map_values(|p: (String, u64)| Contrib::Defined(asset_key(policy, hex_bytes_of(p.0@)), p.1))
}

/// The contributions of one entry of the value map. An ill-shaped entry
/// contributes nothing here; `entry_error` reports it instead.
pub open spec fn entry_contribs(e: (String, AssetValue)) -> Seq<Contrib> {
    if e.0@ == "lovelace"@ {
        match e.1 {
            AssetValue::Lovelace(n) => seq![Contrib::Naked(n)],
            AssetValue::Multi(_) => Seq::<Contrib>::empty(),
        }
    } else {
        match e.1 {
            AssetValue::Multi(names) => name_contribs(hex_bytes_of(e.0@), names@),
            AssetValue::Lovelace(_) => Seq::<Contrib>::empty(),
        }
    }
}

pub open spec fn value_contribs(s: Seq<(String, AssetValue)>) -> Seq<Contrib>
    decreases s.len(),
{
    if s.len() == 0 {
        Seq::<Contrib>::empty()
    } else {
        value_contribs(s.drop_last()) + entry_contribs(s.last())
    }
}

/// The totals a value map denotes.
pub open spec fn value_model(s: Seq<(String, AssetValue)>) -> AssetsModel {
    contribs_applied(empty_model(), value_contribs(s))
}

/// Whether one entry respects the dual shape of the value map: the
/// `"lovelace"` key carries a plain amount, every other key a nested map
/// under a well-formed base16 policy id with well-formed base16 names.
pub open spec fn entry_ok(e: (String, AssetValue)) -> bool {
    if e.0@ == "lovelace"@ {
        e.1 is Lovelace
    } else {
        match e.1 {
            AssetValue::Multi(names) => hex_decoding(e.0@) is Some
                && forall|i: int| 0 <= i < names@.len()
                    ==> hex_decoding((#[trigger] names@[i]).0@) is Some,
            AssetValue::Lovelace(_) => false,
        }
    }
}

pub open spec fn value_ok(s: Seq<(String, AssetValue)>) -> bool {
    forall|i: int| 0 <= i < s.len() ==> entry_ok(#[trigger] s[i])
}

/// Why decoding a value map failed.
#[derive(Clone, Copy, Debug, PartialEq, Eq, Structural)]
pub enum AssetsError {
    /// The `"lovelace"` key carries a nested map instead of a plain amount.
    LovelaceShape,
    /// A policy key carries a plain amount instead of a nested map.
    PolicyShape,
    /// A policy key is not well-formed base16.
    PolicyHex,
    /// An asset name is not well-formed base16.
    NameHex,
    /// A total exceeds the 128-bit signed range.
    Overflow,
}

/// The first asset name of a nested map that is not well-formed base16.
pub open spec fn first_bad_name(names: Seq<(String, u64)>) -> bool {
    exists|i: int| 0 <= i < names.len() && hex_decoding((#[trigger] names[i]).0@) is None
}

/// The error one entry reports, shape first, then the policy's base16,
/// then the names'.
pub open spec fn entry_error(e: (String, AssetValue)) -> Option<AssetsError> {
    if e.0@ == "lovelace"@ {
        match e.1 {
            AssetValue::Lovelace(_) => None::<AssetsError>,
            AssetValue::Multi(_) => Some(AssetsError::LovelaceShape),
        }
    } else {
        match e.1 {
            AssetValue::Lovelace(_) => Some(AssetsError::PolicyShape),
            AssetValue::Multi(names) => if hex_decoding(e.0@) is None {
                Some(AssetsError::PolicyHex)
            } else if first_bad_name(names@) {
                Some(AssetsError::NameHex)
            } else {
                None::<AssetsError>
            },
        }
    }
}

/// The first entry error in wire order.
pub open spec fn first_error(s: Seq<(String, AssetValue)>) -> Option<AssetsError>
    decreases s.len(),
{
    if s.len() == 0 {
        None::<AssetsError>
    } else {
        match entry_error(s[0]) {
            Some(e) => Some(e),
            None => first_error(s.drop_first()),
        }
    }
}

/// The shape pass never reports an overflow; only accumulation does.
pub proof fn lemma_first_error_not_overflow(s: Seq<(String, AssetValue)>)
    ensures
        first_error(s) != Some(AssetsError::Overflow),
    decreases s.len(),
{
    if s.len() > 0 {
        lemma_first_error_not_overflow(s.drop_first());
    }
}

pub proof fn lemma_first_error_ok(s: Seq<(String, AssetValue)>)
    ensures
        first_error(s) is None <==> value_ok(s),
    decreases s.len(),
{
    if s.len() > 0 {
        lemma_first_error_ok(s.drop_first());
        assert(entry_error(s[0]) is None <==> entry_ok(s[0]));
        if entry_error(s[0]) is None && first_error(s.drop_first()) is None {
            assert forall|i: int| 0 <= i < s.len() implies entry_ok(#[trigger] s[i]) by {
                if i > 0 {
                    assert(s.drop_first()[i - 1] == s[i]);
                }
            }
        }
        if value_ok(s) {
            assert forall|i: int| 0 <= i < s.drop_first().len()
                implies entry_ok(#[trigger] s.drop_first()[i]) by {
                assert(s.drop_first()[i] == s[i + 1]);
            }
        }
    }
}

/// All totals fit the 128-bit signed range.
pub open spec fn in_range_128(m: AssetsModel) -> bool {
    m.naked <= i128::MAX
        && forall|k: Seq<char>| #[trigger] m.defined.contains_key(k) ==> m.defined[k] <= i128::MAX
}

proof fn lemma_contribs_applied_append(m: AssetsModel, a: Seq<Contrib>, b: Seq<Contrib>)
    ensures
        contribs_applied(m, a + b) == contribs_applied(contribs_applied(m, a), b),
    decreases b.len(),
{
    if b.len() == 0 {
        assert(a + b =~= a);
    } else {
        lemma_contribs_applied_append(m, a, b.drop_last());
        assert((a + b).drop_last() =~= a + b.drop_last());
        assert((a + b).last() == b.last());
    }
}

proof fn lemma_contrib_commute(m: AssetsModel, c1: Contrib, c2: Contrib)
    ensures
        contrib_applied(contrib_applied(m, c1), c2) == contrib_applied(contrib_applied(m, c2), c1),
{
    let l = contrib_applied(contrib_applied(m, c1), c2);
    let r = contrib_applied(contrib_applied(m, c2), c1);
    match (c1, c2) {
        (Contrib::Defined(k1, n1), Contrib::Defined(k2, n2)) => {
            assert(l.defined =~= r.defined);
        }
        _ => {
            assert(l.defined =~= r.defined);
        }
    }
    assert(l.naked == r.naked);
}

proof fn lemma_contribs_move_to_end(m: AssetsModel, cs: Seq<Contrib>, j: int)
    requires
        0 <= j < cs.len(),
    ensures
        contribs_applied(m, cs) == contrib_applied(contribs_applied(m, cs.remove(j)), cs[j]),
    decreases cs.len() - j,
{
    if j == cs.len() - 1 {
        assert(cs.remove(j) =~= cs.drop_last());
    } else {
        lemma_contribs_move_to_end(m, cs.drop_last(), j);
        assert(cs.drop_last().remove(j) =~= cs.remove(j).drop_last());
        assert(cs.drop_last()[j] == cs[j]);
        assert(cs.remove(j).last() == cs.last());
        lemma_contrib_commute(contribs_applied(m, cs.remove(j).drop_last()), cs.last(), cs[j]);
    }
}

proof fn lemma_contribs_permutation(m: AssetsModel, a: Seq<Contrib>, b: Seq<Contrib>)
    requires
        a.to_multiset() == b.to_multiset(),
    ensures
        contribs_applied(m, a) == contribs_applied(m, b),
    decreases a.len(),
{
    broadcast use vstd::seq_lib::group_to_multiset_ensures;

    if a.len() == 0 {
        assert(b.to_multiset().len() == 0);
        assert(b.len() == 0);
    } else {
        let x = a.last();
        assert(a.to_multiset().contains(x)) by {
            assert(a.contains(x));
        }
        assert(b.to_multiset().contains(x));
        assert(b.contains(x));
        let j = choose|j: int| 0 <= j < b.len() && b[j] == x;
        lemma_contribs_move_to_end(m, b, j);
        assert(a.drop_last() =~= a.remove(a.len() - 1));
        assert(a.remove(a.len() - 1).to_multiset() =~= a.to_multiset().remove(x));
        assert(b.remove(j).to_multiset() =~= b.to_multiset().remove(x));
        lemma_contribs_permutation(m, a.drop_last(), b.remove(j));
    }
}

/// Applying contributions never lowers a total: every amount is
/// nonnegative.
proof fn lemma_totals_monotone(m: AssetsModel, cs: Seq<Contrib>)
    ensures
        contribs_applied(m, cs).naked >= m.naked,
        forall|k: Seq<char>| total_of(contribs_applied(m, cs), k) >= total_of(m, k),
    decreases cs.len(),
{
    if cs.len() > 0 {
        lemma_totals_monotone(m, cs.drop_last());
        let pre = contribs_applied(m, cs.drop_last());
        assert forall|k: Seq<char>|
            total_of(contribs_applied(m, cs), k) >= total_of(pre, k) by {
            match cs.last() {
                Contrib::Naked(_) => {}
                Contrib::Defined(k2, n) => {
                    if k == k2 {
                        assert(total_of(contribs_applied(m, cs), k) == total_of(pre, k) + n);
                    }
                }
            }
        }
    }
}

proof fn lemma_value_contribs_append(s1: Seq<(String, AssetValue)>, s2: Seq<(String, AssetValue)>)
    ensures
        value_contribs(s1 + s2) == value_contribs(s1) + value_contribs(s2),
    decreases s2.len(),
{
    if s2.len() == 0 {
        assert(s1 + s2 =~= s1);
        assert(value_contribs(s1) + value_contribs(s2) =~= value_contribs(s1));
    } else {
        lemma_value_contribs_append(s1, s2.drop_last());
        assert((s1 + s2).drop_last() =~= s1 + s2.drop_last());
        assert((s1 + s2).len() > 0);
        assert((s1 + s2).last() == s2.last());
        assert(value_contribs(s1) + value_contribs(s2)
            =~= (value_contribs(s1) + value_contribs(s2.drop_last())) + entry_contribs(s2.last()));
    }
}

/// The contributions of a value map with one entry set aside are a
/// permutation of the whole map's contributions.
proof fn lemma_value_contribs_remove(s: Seq<(String, AssetValue)>, j: int)
    requires
        0 <= j < s.len(),
    ensures
        value_contribs(s).to_multiset()
            == (value_contribs(s.remove(j)) + entry_contribs(s[j])).to_multiset(),
{
    broadcast use vstd::seq_lib::group_to_multiset_ensures;

    let a = s.take(j);
    let e = seq![s[j]];
    let b = s.skip(j + 1);
    assert(s =~= (a + e) + b);
    lemma_value_contribs_append(a + e, b);
    lemma_value_contribs_append(a, e);
    assert(s.remove(j) =~= a + b);
    lemma_value_contribs_append(a, b);
    assert(value_contribs(e) =~= entry_contribs(s[j])) by {
        assert(e.drop_last() =~= Seq::<(String, AssetValue)>::empty());
        assert(value_contribs(e) == value_contribs(e.drop_last()) + entry_contribs(e.last()));
        assert(Seq::<Contrib>::empty() + entry_contribs(s[j]) =~= entry_contribs(s[j]));
    }
    let ca = value_contribs(a);
    let ce = entry_contribs(s[j]);
    let cb = value_contribs(b);
    assert(value_contribs(s) == (ca + ce) + cb);
    assert(value_contribs(s.remove(j)) + entry_contribs(s[j]) == (ca + cb) + ce);
    vstd::seq_lib::lemma_multiset_commutative(ca + ce, cb);
    vstd::seq_lib::lemma_multiset_commutative(ca, ce);
    vstd::seq_lib::lemma_multiset_commutative(ca + cb, ce);
    vstd::seq_lib::lemma_multiset_commutative(ca, cb);
    assert(value_contribs(s).to_multiset()
        =~= (value_contribs(s.remove(j)) + entry_contribs(s[j])).to_multiset());
}

/// Law: decoding a value map and summing per policy is independent of key
/// iteration order. Two value maps holding the same entries in any order
/// denote the same totals, and one is well-shaped exactly when the other
/// is.
pub proof fn lemma_decode_assets_order_independent(
    s1: Seq<(String, AssetValue)>,
    s2: Seq<(String, AssetValue)>,
)
    requires
        s1.to_multiset() == s2.to_multiset(),
    ensures
        value_model(s1) == value_model(s2),
        value_ok(s1) == value_ok(s2),
    decreases s1.len(),
{
    broadcast use vstd::seq_lib::group_to_multiset_ensures;

    if s1.len() == 0 {
        assert(s2.to_multiset().len() == 0);
        assert(s2.len() == 0);
    } else {
        let x = s1.last();
        assert(s1.to_multiset().contains(x)) by {
            assert(s1.contains(x));
        }
        assert(s2.to_multiset().contains(x));
        assert(s2.contains(x));
        let j = choose|j: int| 0 <= j < s2.len() && s2[j] == x;
        assert(s1.drop_last() =~= s1.remove(s1.len() - 1));
        assert(s1.remove(s1.len() - 1).to_multiset() =~= s1.to_multiset().remove(x));
        assert(s2.remove(j).to_multiset() =~= s2.to_multiset().remove(x));
        lemma_decode_assets_order_independent(s1.drop_last(), s2.remove(j));

        lemma_value_contribs_remove(s2, j);
        lemma_contribs_permutation(
            empty_model(),
            value_contribs(s2),
            value_contribs(s2.remove(j)) + entry_contribs(x),
        );
        lemma_contribs_applied_append(
            empty_model(),
            value_contribs(s2.remove(j)),
            entry_contribs(x),
        );
        lemma_contribs_applied_append(
            empty_model(),
            value_contribs(s1.drop_last()),
            entry_contribs(x),
        );
        assert(value_contribs(s1) == value_contribs(s1.drop_last()) + entry_contribs(x));

            assert(value_ok(s1) == value_ok(s2)) by {
            if value_ok(s1) {
                assert forall|i: int| 0 <= i < s2.len() implies entry_ok(#[trigger] s2[i]) by {
                    assert(s2.contains(s2[i]));
                    assert(s2.to_multiset().contains(s2[i]));
                    assert(s1.to_multiset().contains(s2[i]));
                    assert(s1.contains(s2[i]));
                    let w = choose|w: int| 0 <= w < s1.len() && s1[w] == s2[i];
                    assert(entry_ok(s1[w]));
                }
            }
            if value_ok(s2) {
                assert forall|i: int| 0 <= i < s1.len() implies entry_ok(#[trigger] s1[i]) by {
                    assert(s1.contains(s1[i]));
                    assert(s1.to_multiset().contains(s1[i]));
                    assert(s2.to_multiset().contains(s1[i]));
                    assert(s2.contains(s1[i]));
                    let w = choose|w: int| 0 <= w < s2.len() && s2[w] == s1[i];
                    assert(entry_ok(s2[w]));
                }
            }
        }
    }
}

/// The totals map a vector of key-amount entries denotes; on a duplicated
/// key the first entry wins, as everywhere in this crate.
pub open spec fn defined_map_of(s: Seq<(String, i128)>) -> Map<Seq<char>, int>
    decreases s.len(),
{
    if s.len() == 0 {
        Map::<Seq<char>, int>::empty()
    } else {
        defined_map_of(s.drop_first()).insert(s[0].0@, s[0].1 as int)
    }
}

proof fn lemma_defined_map_get(s: Seq<(String, i128)>, k: Seq<char>)
    ensures
        defined_map_of(s).contains_key(k) <==> alist_get(s, k) is Some,
        alist_get(s, k) matches Some(v) ==> defined_map_of(s)[k] == v as int,
    decreases s.len(),
{
    if s.len() > 0 {
        lemma_defined_map_get(s.drop_first(), k);
    }
}

proof fn lemma_defined_map_values(s: Seq<(String, i128)>, k: Seq<char>)
    ensures
        defined_map_of(s).contains_key(k) ==> exists|i: int|
            0 <= i < s.len() && (#[trigger] s[i]).0@ == k && defined_map_of(s)[k] == s[i].1 as int,
    decreases s.len(),
{
    if s.len() > 0 {
        lemma_defined_map_values(s.drop_first(), k);
        if defined_map_of(s).contains_key(k) {
            if s[0].0@ == k {
                assert(s[0].0@ == k && defined_map_of(s)[k] == s[0].1 as int);
            } else {
                let i = choose|i: int| 0 <= i < s.drop_first().len()
                    && (#[trigger] s.drop_first()[i]).0@ == k
                    && defined_map_of(s.drop_first())[k] == s.drop_first()[i].1 as int;
                assert(s[i + 1].0@ == k && defined_map_of(s)[k] == s[i + 1].1 as int);
            }
        }
    }
}

proof fn lemma_defined_map_push_absent(s: Seq<(String, i128)>, k: String, v: i128)
    requires
        alist_get(s, k@) is None,
    ensures
        defined_map_of(s.push((k, v))) == defined_map_of(s).insert(k@, v as int),
    decreases s.len(),
{
    if s.len() == 0 {
        let p = s.push((k, v));
        assert(p.drop_first() =~= Seq::<(String, i128)>::empty());
        assert(defined_map_of(p) =~= defined_map_of(s).insert(k@, v as int));
    } else {
        assert(s.push((k, v)).drop_first() =~= s.drop_first().push((k, v)));
        lemma_defined_map_push_absent(s.drop_first(), k, v);
        assert(s[0].0@ != k@);
        assert(defined_map_of(s.push((k, v))) =~= defined_map_of(s).insert(k@, v as int));
    }
}

proof fn lemma_defined_map_update(s1: Seq<(String, i128)>, s2: Seq<(String, i128)>, i: int, v: i128)
    requires
        alist_keys_unique(s1),
        s1.len() == s2.len(),
        0 <= i < s1.len(),
        s2[i].0@ == s1[i].0@,
        s2[i].1 == v,
        forall|j: int| 0 <= j < s1.len() && j != i ==> #[trigger] s2[j] == s1[j],
    ensures
        defined_map_of(s2) == defined_map_of(s1).insert(s1[i].0@, v as int),
        alist_keys_unique(s2),
    decreases s1.len(),
{
    assert forall|a: int, b: int| 0 <= a < b < s2.len() implies
        (#[trigger] s2[a]).0@ != (#[trigger] s2[b]).0@ by {
        assert(s2[a].0@ == s1[a].0@);
        assert(s2[b].0@ == s1[b].0@);
    }
    if i == 0 {
        assert(s2.drop_first() =~= s1.drop_first()) by {
            assert forall|j: int| 0 <= j < s1.drop_first().len() implies
                #[trigger] s2.drop_first()[j] == s1.drop_first()[j] by {
                assert(s2[j + 1] == s1[j + 1]);
            }
        }
        assert(defined_map_of(s2) =~= defined_map_of(s1).insert(s1[0].0@, v as int));
    } else {
        assert(s2[0] == s1[0]);
        assert(s1.drop_first().len() == s2.drop_first().len());
        assert forall|j: int| 0 <= j < s1.drop_first().len() && j != i - 1 implies
            #[trigger] s2.drop_first()[j] == s1.drop_first()[j] by {
            assert(s2[j + 1] == s1[j + 1]);
        }
        assert(s2.drop_first()[i - 1].0@ == s1.drop_first()[i - 1].0@);
        assert(s2.drop_first()[i - 1].1 == v);
        assert(alist_keys_unique(s1.drop_first())) by {
            assert forall|a: int, b: int| 0 <= a < b < s1.drop_first().len() implies
                (#[trigger] s1.drop_first()[a]).0@ != (#[trigger] s1.drop_first()[b]).0@ by {
                assert(s1.drop_first()[a] == s1[a + 1]);
                assert(s1.drop_first()[b] == s1[b + 1]);
            }
        }
        lemma_defined_map_update(s1.drop_first(), s2.drop_first(), i - 1, v);
        assert(s1[0].0@ != s1[i].0@);
        assert(defined_map_of(s2) =~= defined_map_of(s1).insert(s1[i].0@, v as int));
    }
}

/// Running asset totals: a naked amount plus per-asset amounts keyed by
/// the canonical `"<policy hex>.<name hex>"` key, each key held once.
pub struct CanonicalAssets {
    naked: i128,
    defined: Vec<(String, i128)>,
}

impl CanonicalAssets {
    pub closed spec fn defined_seq(&self) -> Seq<(String, i128)> {
        self.defined@
    }

    pub open spec fn wf(&self) -> bool {
        alist_keys_unique(self.defined_seq())
    }

    /// The totals this value denotes.
    pub closed spec fn model(&self) -> AssetsModel {
        AssetsModel { naked: self.naked as int, defined: defined_map_of(self.defined@) }
    }

    pub fn empty() -> (r: Self)
        ensures
            r.wf(),
            r.model() == empty_model(),
    {
        let r = CanonicalAssets { naked: 0, defined: Vec::new() };
        proof {
            assert(r.model().defined =~= empty_model().defined);
        }
        r
    }

    /// The naked (plain numeric) total.
    pub fn naked_amount(&self) -> (r: i128)
        ensures
            r as int == self.model().naked,
    {
        self.naked
    }

    /// The amount under one canonical asset key, absent when zero assets
    /// of that kind were seen.
    pub fn defined_amount(&self, key: &String) -> (r: Option<i128>)
        ensures
            match r {
                Some(v) => self.model().defined.contains_key(key@)
                    && self.model().defined[key@] == v as int,
                None => !self.model().defined.contains_key(key@),
            },
    {
        proof {
            lemma_defined_map_get(self.defined@, key@);
        }
        match alist_lookup(&self.defined, key) {
            Some(v) => Some(*v),
            None => None,
        }
    }

    /// The defined-asset entries, in first-seen order.
    pub fn defined_entries(&self) -> (r: &Vec<(String, i128)>)
        ensures
            r@ == self.defined_seq(),
    {
        &self.defined
    }

    /// Adds a naked amount; fails exactly when the total would leave the
    /// 128-bit signed range, leaving the totals unchanged.
    pub fn add_naked(&mut self, amount: u64) -> (ok: bool)
        ensures
            ok ==> final(self).model() == contrib_applied(old(self).model(), Contrib::Naked(amount)),
            ok ==> final(self).wf() == old(self).wf(),
            !ok ==> *final(self) == *old(self) && old(self).model().naked + amount > i128::MAX,
    {
        match self.naked.checked_add(amount as i128) {
            Some(v) => {
                self.naked = v;
                true
            }
            None => false,
        }
    }

    /// Adds a defined-asset amount under a canonical key; fails exactly
    /// when that key's total would leave the 128-bit signed range, leaving
    /// the totals unchanged.
    pub fn add_defined(&mut self, key: String, amount: u64) -> (ok: bool)
        requires
            old(self).wf(),
        ensures
            ok ==> final(self).model()
                == contrib_applied(old(self).model(), Contrib::Defined(key@, amount)),
            ok ==> final(self).wf(),
            !ok ==> *final(self) == *old(self)
                && total_of(old(self).model(), key@) + amount > i128::MAX,
    {
        let found = find_key_index(&self.defined, &key);
        proof {
            lemma_defined_map_get(self.defined@, key@);
        }
        match found {
            None => {
                proof {
                    lemma_defined_map_push_absent(self.defined@, key, amount as i128);
                    crate::alist::lemma_alist_map_get(self.defined@, key@);
                }
                let ghost pre = self.defined@;
                self.defined.push((key, amount as i128));
                proof {
                    assert forall|a: int, b: int| 0 <= a < b < self.defined@.len() implies
                        (#[trigger] self.defined@[a]).0@ != (#[trigger] self.defined@[b]).0@ by {
                        if b == self.defined@.len() - 1 {
                            assert(alist_get(pre, key@) is None);
                            lemma_alist_get_some(pre, a);
                        }
                    }
                    assert(final(self).model().defined
                        =~= contrib_applied(old(self).model(), Contrib::Defined(key@, amount)).defined);
                }
                true
            }
            Some(i) => {
                proof {
                    crate::alist::lemma_alist_get_unique(self.defined@, key@);
                    assert(self.defined@[i as int].0@ == key@);
                    assert(alist_get(self.defined@, key@) == Some(self.defined@[i as int].1));
                }
                let current = self.defined[i].1;
                match current.checked_add(amount as i128) {
                    Some(v) => {
                        let ghost pre = self.defined@;
                        let mut updated: Vec<(String, i128)> = Vec::new();
                        let m = self.defined.len();
                        for j in 0..m
                            invariant
                                m == self.defined@.len(),
                                i < m,
                                v == self.defined@[i as int].1 + amount,
                                updated@.len() == j,
                                forall|w: int| 0 <= w < j && w != i ==> #[trigger] updated@[w]
                                    == self.defined@[w],
                                i < j ==> updated@[i as int]
                                    == (self.defined@[i as int].0, v),
                        {
                            if j == i {
                                updated.push((self.defined[j].0.clone(), v));
                            } else {
                                updated.push((self.defined[j].0.clone(), self.defined[j].1));
                            }
                        }
                        proof {
                            lemma_defined_map_update(pre, updated@, i as int, v);
                        }
                        self.defined = updated;
                        proof {
                            assert(final(self).model().defined =~= contrib_applied(
                                old(self).model(), Contrib::Defined(key@, amount)).defined);
                        }
                        true
                    }
                    None => false,
                }
            }
        }
    }
}

fn find_key_index(entries: &Vec<(String, i128)>, key: &String) -> (r: Option<usize>)
    ensures
        match r {
            Some(i) => i < entries@.len() && entries@[i as int].0@ == key@,
            None => alist_get(entries@, key@) is None,
        },
{
    let n = entries.len();
    let mut i: usize = 0;
    while i < n
        invariant
            i <= n,
            n == entries@.len(),
            alist_get(entries@, key@) == alist_get(entries@.skip(i as int), key@),
        decreases n - i,
    {
        proof {
            assert(entries@.skip(i as int)[0] == entries@[i as int]);
            assert(entries@.skip(i as int).drop_first() == entries@.skip(i + 1));
        }
        if entries[i].0.eq(key) {
            return Some(i);
        }
        i = i + 1;
    }
    proof {
        assert(entries@.skip(n as int) =~= Seq::<(String, i128)>::empty());
    }
    None
}

/// The first ill-shaped entry determines the reported error.
proof fn lemma_first_error_at(s: Seq<(String, AssetValue)>, i: int)
    requires
        0 <= i < s.len(),
        forall|j: int| 0 <= j < i ==> entry_error(#[trigger] s[j]) is None,
        entry_error(s[i]) is Some,
    ensures
        first_error(s) == entry_error(s[i]),
    decreases i,
{
    if i == 0 {
    } else {
        assert(entry_error(s[0]) is None);
        assert forall|j: int| 0 <= j < i - 1 implies
            entry_error(#[trigger] s.drop_first()[j]) is None by {
            assert(s.drop_first()[j] == s[j + 1]);
        }
        assert(s.drop_first()[i - 1] == s[i]);
        lemma_first_error_at(s.drop_first(), i - 1);
    }
}

/// Splits the contributions of a value map around one of them.
proof fn lemma_contribs_split(
    s: Seq<(String, AssetValue)>,
    pre: Seq<Contrib>,
    c: Contrib,
    post: Seq<Contrib>,
)
    requires
        value_contribs(s) == pre + (seq![c] + post),
    ensures
        value_model(s) == contribs_applied(
            contrib_applied(contribs_applied(empty_model(), pre), c),
            post,
        ),
{
    lemma_contribs_applied_append(empty_model(), pre, seq![c] + post);
    let m1 = contribs_applied(empty_model(), pre);
    lemma_contribs_applied_append(m1, seq![c], post);
    assert(seq![c].len() == 1);
    assert(seq![c].last() == c);
    assert(seq![c].drop_last() =~= Seq::<Contrib>::empty());
    assert(contribs_applied(m1, seq![c].drop_last()) == m1);
    assert(contribs_applied(m1, seq![c]) == contrib_applied(m1, c));
}

/// Decodes a UTXO's wire value map into canonical asset totals. Succeeds
/// exactly when every entry respects the dual shape with well-formed
/// base16 keys and every total fits the 128-bit signed range; the totals
/// are then exactly what the map denotes, independent of entry order.
#[verifier::rlimit(100)]
pub fn decode_assets(value: &Value) -> (r: Result<CanonicalAssets, AssetsError>)
    ensures
        (r is Ok) == (value_ok(value.assets@) && in_range_128(value_model(value.assets@))),
        r matches Ok(c) ==> c.wf() && c.model() == value_model(value.assets@),
        !value_ok(value.assets@) ==> (first_error(value.assets@) matches Some(e) && r == Err::<
            CanonicalAssets,
            AssetsError,
        >(e)),
        value_ok(value.assets@) && !in_range_128(value_model(value.assets@)) ==> r == Err::<
            CanonicalAssets,
            AssetsError,
        >(AssetsError::Overflow),
{
    let ghost s = value.assets@;
    let lovelace_key: String = String::from_str("lovelace");
    let n = value.assets.len();

    // First pass: hold every entry to the dual shape and its base16 keys.
    for i in 0..n
        invariant
            n == s.len(),
            s == value.assets@,
            lovelace_key@ == "lovelace"@,
            forall|j: int| 0 <= j < i ==> entry_ok(#[trigger] s[j]),
    {
        let entry = &value.assets[i];
        proof {
            assert(entry_error(s[i as int]) is None <==> entry_ok(s[i as int]));
            assert forall|j: int| 0 <= j < i implies entry_error(#[trigger] s[j]) is None by {
                assert(entry_ok(s[j]));
            }
        }
        if entry.0.eq(&lovelace_key) {
            match &entry.1 {
                AssetValue::Lovelace(_) => {}
                AssetValue::Multi(_) => {
                    proof {
                        lemma_first_error_at(s, i as int);
                    }
                    return Err(AssetsError::LovelaceShape);
                }
            }
        } else {
            match &entry.1 {
                AssetValue::Lovelace(_) => {
                    proof {
                        lemma_first_error_at(s, i as int);
                    }
                    return Err(AssetsError::PolicyShape);
                }
                AssetValue::Multi(names) => {
                    if hex_decode(entry.0.as_str()).is_none() {
                        proof {
                            lemma_first_error_at(s, i as int);
                        }
                        return Err(AssetsError::PolicyHex);
                    }
                    let m = names.len();
                    for j in 0..m
                        invariant
                            m == names@.len(),
                            n == s.len(),
                            s == value.assets@,
                            i < n,
                            s[i as int].0@ != "lovelace"@,
                            s[i as int].1 == AssetValue::Multi(*names),
                            hex_decoding(s[i as int].0@) is Some,
                            forall|w: int| 0 <= w < i ==> entry_ok(#[trigger] s[w]),
                            forall|w: int| 0 <= w < j
                                ==> hex_decoding((#[trigger] names@[w]).0@) is Some,
                    {
                        if hex_decode(names[j].0.as_str()).is_none() {
                            proof {
                                assert(first_bad_name(names@));
                                assert forall|w: int| 0 <= w < i implies
                                    entry_error(#[trigger] s[w]) is None by {
                                    assert(entry_ok(s[w]));
                                }
                                lemma_first_error_at(s, i as int);
                            }
                            return Err(AssetsError::NameHex);
                        }
                    }
                }
            }
        }
    }
    proof {
        assert(value_ok(s));
    }

    // Second pass: accumulate, rejecting any total past the type bound.
    let mut acc = CanonicalAssets::empty();
    proof {
        assert(value_contribs(s.take(0)) =~= Seq::<Contrib>::empty());
    }
    for i in 0..n
        invariant
            n == s.len(),
            s == value.assets@,
            value_ok(s),
            lovelace_key@ == "lovelace"@,
            acc.wf(),
            acc.model() == contribs_applied(empty_model(), value_contribs(s.take(i as int))),
    {
        let entry = &value.assets[i];
        let ghost pre = value_contribs(s.take(i as int));
        proof {
            assert(s.take(i + 1).drop_last() =~= s.take(i as int));
            assert(s.take(i + 1).last() == s[i as int]);
            assert(value_contribs(s.take(i + 1)) == pre + entry_contribs(s[i as int]));
            assert(s =~= s.take(i + 1) + s.skip(i + 1));
            lemma_value_contribs_append(s.take(i + 1), s.skip(i + 1));
        }
        if entry.0.eq(&lovelace_key) {
            match &entry.1 {
                AssetValue::Lovelace(amount) => {
                    proof {
                        assert(entry_contribs(s[i as int]) =~= seq![Contrib::Naked(*amount)]);
                    }
                    if !acc.add_naked(*amount) {
                        proof {
                            let c = Contrib::Naked(*amount);
                            let post = value_contribs(s.skip(i + 1));
                            assert(value_contribs(s) == pre + (seq![c] + post)) by {
                                assert(pre + seq![c] + post =~= pre + (seq![c] + post));
                            }
                            lemma_contribs_split(s, pre, c, post);
                            let mid = contrib_applied(acc.model(), c);
                            lemma_totals_monotone(mid, post);
                            assert(value_model(s).naked > i128::MAX);
                        }
                        return Err(AssetsError::Overflow);
                    }
                    proof {
                        assert(acc.model() == contribs_applied(
                            empty_model(),
                            value_contribs(s.take(i + 1)),
                        )) by {
                            lemma_contribs_applied_append(
                                empty_model(),
                                pre,
                                entry_contribs(s[i as int]),
                            );
                            assert(entry_contribs(s[i as int]).drop_last()
                                =~= Seq::<Contrib>::empty());
                        }
                    }
                }
                AssetValue::Multi(_) => {
                    proof {
                        assert(entry_ok(s[i as int]));
                        assert(false);
                    }
                    return Err(AssetsError::LovelaceShape);
                }
            }
        } else {
            match &entry.1 {
                AssetValue::Lovelace(_) => {
                    proof {
                        assert(entry_ok(s[i as int]));
                        assert(false);
                    }
                    return Err(AssetsError::PolicyShape);
                }
                AssetValue::Multi(names) => {
                    let policy_bytes = match hex_decode(entry.0.as_str()) {
                        Some(b) => b,
                        None => {
                            proof {
                                assert(entry_ok(s[i as int]));
                                assert(false);
                            }
                            return Err(AssetsError::PolicyHex);
                        }
                    };
                    let policy_hex = hex_encode(policy_bytes.as_slice());
                    let ghost cp = hex_bytes_of(entry.0@);
                    proof {
                        assert(policy_bytes@ == cp);
                        assert(entry_contribs(s[i as int]) == name_contribs(cp, names@));
                    }
                    proof {
                        assert(names@.take(0) =~= Seq::<(String, u64)>::empty());
                        assert(name_contribs(cp, names@.take(0))
                            =~= Seq::<Contrib>::empty());
                        assert(pre + name_contribs(cp, names@.take(0)) =~= pre);
                    }
                    let m = names.len();
                    for j in 0..m
                        invariant
                            m == names@.len(),
                            n == s.len(),
                            s == value.assets@,
                            value_ok(s),
                            i < n,
                            s[i as int].1 == AssetValue::Multi(*names),
                            s[i as int].0@ != "lovelace"@,
                            cp == hex_bytes_of(s[i as int].0@),
                            policy_hex@ == hex_encoding(cp),
                            pre == value_contribs(s.take(i as int)),
                            acc.wf(),
                            acc.model() == contribs_applied(
                                empty_model(),
                                pre + name_contribs(cp, names@.take(j as int)),
                            ),
                    {
                        let name_bytes = match hex_decode(names[j].0.as_str()) {
                            Some(b) => b,
                            None => {
                                proof {
                                    assert(entry_ok(s[i as int]));
                                    assert(false);
                                }
                                return Err(AssetsError::NameHex);
                            }
                        };
                        let amount = names[j].1;
                        let mut key = policy_hex.clone();
                        push_char(&mut key, '.');
                        let name_hex = hex_encode(name_bytes.as_slice());
                        key.append(name_hex.as_str());
                        let ghost c = Contrib::Defined(
                            asset_key(cp, hex_bytes_of(names@[j as int].0@)),
                            amount,
                        );
                        proof {
                            assert(key@ == asset_key(cp, hex_bytes_of(names@[j as int].0@))) by {
                                assert(name_bytes@ == hex_bytes_of(names@[j as int].0@));
                                assert(key@ =~= hex_encoding(cp) + seq!['.']
                                    + hex_encoding(name_bytes@));
                            }
                            assert(name_contribs(cp, names@.take(j + 1))
                                =~= name_contribs(cp, names@.take(j as int)) + seq![c]);
                        }
                        let ghost pre_all = pre + name_contribs(cp, names@.take(j as int));
                        if !acc.add_defined(key, amount) {
                            proof {
                                let post = name_contribs(cp, names@.skip(j + 1))
                                    + value_contribs(s.skip(i + 1));
                                assert(value_contribs(s) == pre_all + (seq![c] + post)) by {
                                    assert(s =~= s.take(i + 1) + s.skip(i + 1));
                                    lemma_value_contribs_append(s.take(i + 1), s.skip(i + 1));
                                    assert(s.take(i + 1).drop_last() =~= s.take(i as int));
                                    assert(s.take(i + 1).last() == s[i as int]);
                                    assert(value_contribs(s.take(i + 1))
                                        == pre + entry_contribs(s[i as int]));
                                    assert(entry_contribs(s[i as int])
                                        == name_contribs(cp, names@));
                                    assert(name_contribs(cp, names@)
                                        =~= name_contribs(cp, names@.take(j as int))
                                            + seq![c] + name_contribs(cp, names@.skip(j + 1)));
                                    assert(value_contribs(s) =~= pre_all + (seq![c] + post));
                                }
                                lemma_contribs_split(s, pre_all, c, post);
                                let mid = contrib_applied(acc.model(), c);
                                lemma_totals_monotone(mid, post);
                                let ck = asset_key(cp, hex_bytes_of(names@[j as int].0@));
                                assert(total_of(mid, ck) > i128::MAX);
                                assert(total_of(value_model(s), ck) > i128::MAX);
                                assert(value_model(s).defined.contains_key(ck));
                            }
                            return Err(AssetsError::Overflow);
                        }
                        proof {
                            lemma_contribs_applied_append(
                                empty_model(),
                                pre_all,
                                seq![c],
                            );
                            assert(seq![c].drop_last() =~= Seq::<Contrib>::empty());
                            lemma_contribs_applied_append(
                                empty_model(),
                                pre,
                                name_contribs(cp, names@.take(j + 1)),
                            );
                            lemma_contribs_applied_append(
                                empty_model(),
                                pre,
                                name_contribs(cp, names@.take(j as int)),
                            );
                            assert(acc.model() == contribs_applied(
                                empty_model(),
                                pre + name_contribs(cp, names@.take(j + 1)),
                            ));
                        }
                    }
                    proof {
                        assert(names@.take(m as int) == names@);
                        lemma_contribs_applied_append(
                            empty_model(),
                            pre,
                            entry_contribs(s[i as int]),
                        );
                        assert(acc.model() == contribs_applied(
                            empty_model(),
                            value_contribs(s.take(i + 1)),
                        ));
                    }
                }
            }
        }
    }
    proof {
        assert(s.take(n as int) == s);
        assert(acc.model() == value_model(s));
        assert(in_range_128(value_model(s))) by {
            assert forall|k: Seq<char>| #[trigger] value_model(s).defined.contains_key(k)
                implies value_model(s).defined[k] <= i128::MAX by {
                lemma_defined_map_values(acc.defined_seq(), k);
            }
        }
    }
    Ok(acc)
}

/// A lookup that finds a value shows its key occurs in the entries.
proof fn lemma_alist_get_some<V>(s: Seq<(String, V)>, i: int)
    requires
        0 <= i < s.len(),
    ensures
        alist_get(s, s[i].0@) is Some,
    decreases s.len(),
{
    if s.len() > 0 && i > 0 {
        if s[0].0@ != s[i].0@ {
            assert(s.drop_first()[i - 1] == s[i]);
            lemma_alist_get_some(s.drop_first(), i - 1);
        }
    }
}

/// Why a matched UTXO's own record failed to resolve.
#[derive(Clone, Copy, Debug, PartialEq, Eq, Structural)]
pub enum ResolveError {
    /// The UTXO's address is not bech32 text the codec accepts.
    BadAddress,
    /// The UTXO's datum failed to decode.
    Datum(DatumError),
    /// The UTXO's value map failed to decode.
    Assets(AssetsError),
}

/// A UTXO resolved for the transaction builder: its reference, address
/// bytes, decoded datum expression and canonical asset totals.
pub struct ResolvedUtxo {
    pub tx_ref: UtxoRefData,
    pub address: Vec<u8>,
    pub datum: Option<Expr>,
    pub assets: CanonicalAssets,
}

/// The relation `resolve_utxo` establishes between a UTXO record and its
/// resolved form.
pub open spec fn utxo_resolved(txid: Seq<u8>, index: u32, u: Utxo, r: ResolvedUtxo) -> bool {
    &&& r.tx_ref.txid@ == txid
    &&& r.tx_ref.index == index
    &&& bech32_bytes_of(u.address@) == Some(r.address@)
    &&& (match datum_decoding(u) {
        Ok(d) => match (r.datum, d) {
            (Some(e), Some(dv)) => e@ == dv,
            (None, None) => true,
            _ => false,
        },
        Err(_) => false,
    })
    &&& value_ok(u.value.assets@)
    &&& in_range_128(value_model(u.value.assets@))
    &&& r.assets.wf()
    &&& r.assets.model() == value_model(u.value.assets@)
}

/// The exact conditions under which `resolve_utxo` reports each error.
pub open spec fn utxo_resolve_error(u: Utxo, e: ResolveError) -> bool {
    match e {
        ResolveError::BadAddress => bech32_bytes_of(u.address@) is None,
        ResolveError::Datum(de) => bech32_bytes_of(u.address@) is Some && datum_decoding(u)
            == Err::<Option<ExprV>, DatumError>(de),
        ResolveError::Assets(ae) => bech32_bytes_of(u.address@) is Some && datum_decoding(u) is Ok
            && (if ae is Overflow {
            value_ok(u.value.assets@) && !in_range_128(value_model(u.value.assets@))
        } else {
            first_error(u.value.assets@) == Some(ae)
        }),
    }
}

/// Resolves one UTXO record: decodes its address to bytes, its datum to an
/// expression tree and its value map to canonical totals; any decode
/// failure is reported, never defaulted.
pub fn resolve_utxo(tx_ref: UtxoRefData, utxo: &Utxo) -> (r: Result<ResolvedUtxo, ResolveError>)
    ensures
        match r {
            Ok(res) => utxo_resolved(tx_ref.txid@, tx_ref.index, *utxo, res),
            Err(e) => utxo_resolve_error(*utxo, e),
        },
{
    let address = match bech32_to_address_bytes(utxo.address.as_str()) {
        Some(b) => b,
        None => {
            return Err(ResolveError::BadAddress);
        }
    };
    let datum = match decode_datum(utxo) {
        Ok(d) => d,
        Err(e) => {
            return Err(ResolveError::Datum(e));
        }
    };
    let assets = match decode_assets(&utxo.value) {
        Ok(a) => a,
        Err(e) => {
            proof {
                lemma_first_error_ok(utxo.value.assets@);
                lemma_first_error_not_overflow(utxo.value.assets@);
            }
            return Err(ResolveError::Assets(e));
        }
    };
    Ok(ResolvedUtxo { tx_ref, address, datum, assets })
}

} // verus!
