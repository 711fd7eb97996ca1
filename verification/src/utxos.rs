//! Queries over a UTXO snapshot: the indexed lookups the input selector
//! narrows with (by address, by asset, by explicit reference), and the
//! parsing of the `"<hex txid>#<decimal index>"` key format.
use vstd::prelude::*;

use crate::alist::alist_get;
use crate::model::{TxID, Utxo};
use crate::store::UtxoSnapshot;
use crate::text::{
    decimal_rep, hex_decode, hex_decoding, hex_encode, hex_encoding, parse_u32,
    parse_u32_spec, push_decimal,
};
use tx3_cardano::pallas::ledger::addresses::Address;

verus! {

/// What the address codec renders for given address bytes; a function of
/// the bytes alone.
pub uninterp spec fn bech32_of(bytes: Seq<u8>) -> Option<Seq<char>>;

/// Relies on the address codec (`Address::from_bytes` and `to_bech32`):
/// parsing address bytes and rendering them as bech32 text is a function
/// of the bytes alone.
#[verifier::external_body]
pub fn address_to_bech32(bytes: &[u8]) -> (r: Option<String>)
    ensures
        match r {
            Some(s) => bech32_of(bytes@) == Some(s@),
            None => bech32_of(bytes@) is None,
        },
{
    match Address::from_bytes(bytes) {
        Ok(addr) => addr.to_bech32().ok(),
        Err(_) => None,
    }
}

/// What the address codec reads out of bech32 text; a function of the
/// text alone.
pub uninterp spec fn bech32_bytes_of(s: Seq<char>) -> Option<Seq<u8>>;

/// Relies on the address codec (`Address::from_bech32` and `to_vec`):
/// parsing bech32 text and serializing the address is a function of the
/// text alone.
#[verifier::external_body]
pub fn bech32_to_address_bytes(s: &str) -> (r: Option<Vec<u8>>)
    ensures
        match r {
            Some(b) => bech32_bytes_of(s@) == Some(b@),
            None => bech32_bytes_of(s@) is None,
        },
{
    match Address::from_bech32(s) {
        Ok(addr) => Some(addr.to_vec()),
        Err(_) => None,
    }
}

/// The keys of the snapshot entries a predicate selects, in snapshot
/// order.
pub open spec fn candidates(
    entries: Seq<(String, Utxo)>,
    pred: spec_fn((String, Utxo)) -> bool,
) -> Seq<String> {
    entries.filter(pred).map_values(|p: (String, Utxo)| p.0)
}

pub proof fn lemma_filter_take_zero(entries: Seq<(String, Utxo)>, pred: spec_fn((String, Utxo)) -> bool)
    ensures
        entries.take(0).filter(pred) == Seq::<(String, Utxo)>::empty(),
{
    reveal_with_fuel(Seq::filter, 1);
    assert(entries.take(0) =~= Seq::<(String, Utxo)>::empty());
}

pub proof fn lemma_filter_take_step(
    entries: Seq<(String, Utxo)>,
    pred: spec_fn((String, Utxo)) -> bool,
    i: int,
)
    requires
        0 <= i < entries.len(),
    ensures
        pred(entries[i]) ==> entries.take(i + 1).filter(pred)
            == entries.take(i).filter(pred).push(entries[i]),
        !pred(entries[i]) ==> entries.take(i + 1).filter(pred)
            == entries.take(i).filter(pred),
{
    reveal_with_fuel(Seq::filter, 2);
    let e = entries[i];
    assert(entries.take(i + 1) =~= entries.take(i) + seq![e]);
    Seq::<(String, Utxo)>::filter_distributes_over_add(entries.take(i), seq![e], pred);
    assert(seq![e].drop_last() =~= Seq::<(String, Utxo)>::empty());
    assert(Seq::<(String, Utxo)>::empty().filter(pred) =~= Seq::<(String, Utxo)>::empty());
    assert(seq![e].last() == e);
    if pred(e) {
        assert(seq![e].filter(pred) =~= seq![e]);
        assert(entries.take(i + 1).filter(pred)
            =~= entries.take(i).filter(pred).push(e));
    } else {
        assert(seq![e].filter(pred) =~= Seq::<(String, Utxo)>::empty());
        assert(entries.take(i + 1).filter(pred) =~= entries.take(i).filter(pred));
    }
}

proof fn lemma_candidates_step(
    entries: Seq<(String, Utxo)>,
    pred: spec_fn((String, Utxo)) -> bool,
    i: int,
)
    requires
        0 <= i < entries.len(),
    ensures
        pred(entries[i]) ==> candidates(entries.take(i + 1), pred)
            == candidates(entries.take(i), pred).push(entries[i].0),
        !pred(entries[i]) ==> candidates(entries.take(i + 1), pred)
            == candidates(entries.take(i), pred),
{
    lemma_filter_take_step(entries, pred, i);
    if pred(entries[i]) {
        assert(candidates(entries.take(i + 1), pred)
            =~= candidates(entries.take(i), pred).push(entries[i].0));
    } else {
        assert(candidates(entries.take(i + 1), pred)
            =~= candidates(entries.take(i), pred));
    }
}

pub open spec fn addr_pred(addr: Seq<char>) -> spec_fn((String, Utxo)) -> bool {
    |p: (String, Utxo)| p.1.address@ == addr
}

/// Whether a UTXO holds the asset named by a policy and asset name, both
/// keyed in lowercase base16 as the wire writes them.
pub open spec fn asset_pred(policy_hex: Seq<char>, name_hex: Seq<char>) -> spec_fn(
    (String, Utxo),
) -> bool {
    |p: (String, Utxo)| alist_get(p.1.value.spec_assets_by_policy(policy_hex), name_hex) is Some
}

/// Whether a UTXO holds any asset under a policy.
pub open spec fn policy_pred(policy_hex: Seq<char>) -> spec_fn((String, Utxo)) -> bool {
    |p: (String, Utxo)| p.1.value.spec_assets_by_policy(policy_hex).len() > 0
}

pub open spec fn in_refs(refs: Seq<String>, k: Seq<char>) -> bool {
    exists|i: int| 0 <= i < refs.len() && (#[trigger] refs[i])@ == k
}

pub open spec fn refs_pred(refs: Seq<String>) -> spec_fn((String, Utxo)) -> bool {
    |p: (String, Utxo)| in_refs(refs, p.0@)
}

/// Whether a candidate list names a snapshot key.
pub fn contains_key_string(refs: &Vec<TxID>, k: &String) -> (r: bool)
    ensures
        r == in_refs(refs@, k@),
{
    let n = refs.len();
    for i in 0..n
        invariant
            n == refs@.len(),
            forall|j: int| 0 <= j < i ==> (#[trigger] refs@[j])@ != k@,
    {
        if refs[i].eq(k) {
            return true;
        }
    }
    false
}

/// Why a ledger query failed. Decode failures are always reported to the
/// caller, never silently defaulted.
#[derive(Clone, Copy, Debug, PartialEq, Eq, Structural)]
pub enum LedgerError {
    /// The address bytes do not render as bech32 text.
    InvalidAddress,
}

impl UtxoSnapshot {
    /// The keys of the UTXOs sitting at an address, given as address
    /// bytes; an error when the bytes do not render as bech32 text.
    pub fn get_utxo_by_address(&self, address: &[u8]) -> (r: Result<Vec<TxID>, LedgerError>)
        ensures
            match bech32_of(address@) {
                Some(a) => r matches Ok(v) && v@ == candidates(self.entries_seq(), addr_pred(a)),
                None => r == Err::<Vec<TxID>, LedgerError>(LedgerError::InvalidAddress),
            },
    {
        let addr = match address_to_bech32(address) {
            Some(a) => a,
            None => {
                return Err(LedgerError::InvalidAddress);
            }
        };
        Ok(self.filter_keys_by_address(&addr))
    }

    /// The keys of the UTXOs whose address equals the given bech32 text.
    pub fn filter_keys_by_address(&self, addr: &String) -> (r: Vec<TxID>)
        ensures
            r@ == candidates(self.entries_seq(), addr_pred(addr@)),
    {
        let entries = self.entries();
        let n = entries.len();
        let mut r: Vec<TxID> = Vec::new();
        proof {
            assert(self.entries_seq().take(0) =~= Seq::<(String, Utxo)>::empty());
            assert(candidates(self.entries_seq().take(0), addr_pred(addr@))
                =~= Seq::<String>::empty());
        }
        for i in 0..n
            invariant
                n == entries@.len(),
                entries@ == self.entries_seq(),
                r@ == candidates(self.entries_seq().take(i as int), addr_pred(addr@)),
        {
            proof {
                lemma_candidates_step(self.entries_seq(), addr_pred(addr@), i as int);
            }
            if entries[i].1.address.eq(addr) {
                r.push(entries[i].0.clone());
            }
        }
        proof {
            assert(self.entries_seq().take(n as int) == self.entries_seq());
        }
        r
    }

    /// The keys of the UTXOs holding the given asset, identified by policy
    /// and asset-name bytes.
    pub fn get_utxo_by_asset(&self, policy: &[u8], name: &[u8]) -> (r: Vec<TxID>)
        ensures
            r@ == candidates(
                self.entries_seq(),
                asset_pred(hex_encoding(policy@), hex_encoding(name@)),
            ),
    {
        let policy_hex = hex_encode(policy);
        let name_hex = hex_encode(name);
        let ghost pred = asset_pred(policy_hex@, name_hex@);
        let entries = self.entries();
        let n = entries.len();
        let mut r: Vec<TxID> = Vec::new();
        proof {
            assert(self.entries_seq().take(0) =~= Seq::<(String, Utxo)>::empty());
            assert(candidates(self.entries_seq().take(0), pred) =~= Seq::<String>::empty());
        }
        for i in 0..n
            invariant
                n == entries@.len(),
                entries@ == self.entries_seq(),
                pred == asset_pred(policy_hex@, name_hex@),
                r@ == candidates(self.entries_seq().take(i as int), pred),
        {
            proof {
                lemma_candidates_step(self.entries_seq(), pred, i as int);
            }
            let by_policy = entries[i].1.value.assets_by_policy(&policy_hex);
            if crate::alist::alist_lookup(&by_policy, &name_hex).is_some() {
                r.push(entries[i].0.clone());
            }
        }
        proof {
            assert(self.entries_seq().take(n as int) == self.entries_seq());
        }
        r
    }

    /// The keys of the UTXOs holding any asset under the given policy.
    pub fn get_utxo_by_asset_policy(&self, policy: &[u8]) -> (r: Vec<TxID>)
        ensures
            r@ == candidates(self.entries_seq(), policy_pred(hex_encoding(policy@))),
    {
        let policy_hex = hex_encode(policy);
        let ghost pred = policy_pred(policy_hex@);
        let entries = self.entries();
        let n = entries.len();
        let mut r: Vec<TxID> = Vec::new();
        proof {
            assert(self.entries_seq().take(0) =~= Seq::<(String, Utxo)>::empty());
            assert(candidates(self.entries_seq().take(0), pred) =~= Seq::<String>::empty());
        }
        for i in 0..n
            invariant
                n == entries@.len(),
                entries@ == self.entries_seq(),
                pred == policy_pred(policy_hex@),
                r@ == candidates(self.entries_seq().take(i as int), pred),
        {
            proof {
                lemma_candidates_step(self.entries_seq(), pred, i as int);
            }
            let by_policy = entries[i].1.value.assets_by_policy(&policy_hex);
            if by_policy.len() > 0 {
                r.push(entries[i].0.clone());
            }
        }
        proof {
            assert(self.entries_seq().take(n as int) == self.entries_seq());
        }
        r
    }

    /// The snapshot keys that occur in an explicit reference list, in
    /// snapshot order.
    pub fn get_utxo_by_refs(&self, refs: &Vec<TxID>) -> (r: Vec<TxID>)
        ensures
            r@ == candidates(self.entries_seq(), refs_pred(refs@)),
    {
        let ghost pred = refs_pred(refs@);
        let entries = self.entries();
        let n = entries.len();
        let mut r: Vec<TxID> = Vec::new();
        proof {
            assert(self.entries_seq().take(0) =~= Seq::<(String, Utxo)>::empty());
            assert(candidates(self.entries_seq().take(0), pred) =~= Seq::<String>::empty());
        }
        for i in 0..n
            invariant
                n == entries@.len(),
                entries@ == self.entries_seq(),
                pred == refs_pred(refs@),
                r@ == candidates(self.entries_seq().take(i as int), pred),
        {
            proof {
                lemma_candidates_step(self.entries_seq(), pred, i as int);
            }
            if contains_key_string(refs, &entries[i].0) {
                r.push(entries[i].0.clone());
            }
        }
        proof {
            assert(self.entries_seq().take(n as int) == self.entries_seq());
        }
        r
    }
}

/// A parsed UTXO reference: the producing transaction's hash bytes and the
/// output index.
#[derive(Clone, Debug)]
pub struct UtxoRefData {
    pub txid: Vec<u8>,
    pub index: u32,
}

/// The first `'#'` of a key splits it into hash text and index text.
pub open spec fn find_hash_sep(s: Seq<char>) -> Option<int>
    decreases s.len(),
{
    if s.len() == 0 {
        None::<int>
    } else if s[0] == '#' {
        Some(0)
    } else {
        match find_hash_sep(s.drop_first()) {
            Some(i) => Some(i + 1),
            None => None::<int>,
        }
    }
}

/// What parsing a UTXO key yields: the base16 hash before the first `'#'`
/// and the decimal index after it, or nothing when either part is
/// malformed or the separator is missing.
pub open spec fn txid_parsing(s: Seq<char>) -> Option<(Seq<u8>, u32)> {
    match find_hash_sep(s) {
        None => None::<(Seq<u8>, u32)>,
        Some(i) => match (hex_decoding(s.take(i)), parse_u32_spec(s.skip(i + 1))) {
            (Some(h), Some(ix)) => Some((h, ix)),
            _ => None::<(Seq<u8>, u32)>,
        },
    }
}

proof fn lemma_find_hash_sep(s: Seq<char>)
    ensures
        match find_hash_sep(s) {
            Some(i) => 0 <= i < s.len() && s[i] == '#' && forall|j: int| 0 <= j < i
                ==> s[j] != '#',
            None => forall|j: int| 0 <= j < s.len() ==> s[j] != '#',
        },
    decreases s.len(),
{
    if s.len() > 0 && s[0] != '#' {
        lemma_find_hash_sep(s.drop_first());
        match find_hash_sep(s.drop_first()) {
            Some(i) => {
                assert forall|j: int| 0 <= j < i + 1 implies s[j] != '#' by {
                    if j > 0 {
                        assert(s.drop_first()[j - 1] == s[j]);
                    }
                }
            }
            None => {
                assert forall|j: int| 0 <= j < s.len() implies s[j] != '#' by {
                    if j > 0 {
                        assert(s.drop_first()[j - 1] == s[j]);
                    }
                }
            }
        }
    }
}

fn find_hash_char(s: &str) -> (r: Option<usize>)
    ensures
        match r {
            Some(i) => i < s@.len() && s@[i as int] == '#' && forall|j: int| 0 <= j < i
                ==> s@[j] != '#',
            None => forall|j: int| 0 <= j < s@.len() ==> s@[j] != '#',
        },
{
    let n = s.unicode_len();
    let mut i: usize = 0;
    while i < n
        invariant
            n == s@.len(),
            i <= n,
            forall|j: int| 0 <= j < i ==> s@[j] != '#',
        decreases n - i,
    {
        if s.get_char(i) == '#' {
            return Some(i);
        }
        i = i + 1;
    }
    None
}

/// Parses a `"<hex txid>#<decimal index>"` key; rejects a missing
/// separator, a malformed hash and a malformed index.
pub fn parse_txid(txid: &str) -> (r: Option<UtxoRefData>)
    ensures
        match r {
            Some(d) => txid_parsing(txid@) == Some((d.txid@, d.index)),
            None => txid_parsing(txid@) is None,
        },
{
    let n = txid.unicode_len();
    let sep = match find_hash_char(txid) {
        Some(s) => s,
        None => {
            proof {
                lemma_find_hash_sep(txid@);
            }
            return None;
        }
    };
    proof {
        lemma_find_hash_sep(txid@);
        assert(find_hash_sep(txid@) == Some(sep as int));
    }
    let hash_part = txid.substring_char(0, sep);
    let index_part = txid.substring_char(sep + 1, n);
    proof {
        assert(hash_part@ == txid@.take(sep as int));
        assert(index_part@ == txid@.skip(sep + 1));
    }
    let hash = match hex_decode(hash_part) {
        Some(h) => h,
        None => {
            return None;
        }
    };
    let index = match parse_u32(index_part) {
        Some(ix) => ix,
        None => {
            return None;
        }
    };
    Some(UtxoRefData { txid: hash, index })
}

/// The canonical key text of a parsed reference.
pub open spec fn ref_key(txid: Seq<u8>, index: u32) -> Seq<char> {
    hex_encoding(txid) + seq!['#'] + decimal_rep(index as nat)
}

/// Renders a reference back into its `"<hex txid>#<decimal index>"` key.
pub fn format_ref(r: &UtxoRefData) -> (s: String)
    ensures
        s@ == ref_key(r.txid@, r.index),
{
    let mut s = hex_encode(r.txid.as_slice());
    crate::text::push_char(&mut s, '#');
    push_decimal(&mut s, r.index);
    proof {
        assert(s@ =~= ref_key(r.txid@, r.index));
    }
    s
}

} // verus!
