//! The input selector: narrows the snapshot's UTXO set to a bounded
//! candidate set per query by intersecting one subset per constraint kind,
//! then applies the exact minimum-amount predicate and returns the first
//! match in snapshot order. A query that narrows nothing, or narrows to
//! more than `MAX_SEARCH_SPACE_SIZE` candidates, is rejected as too broad:
//! the ceiling bounds the work one resolve call can cost, and first-match
//! (rather than best-fit or multi-input coverage) is the chosen resolution
//! policy.
use vstd::prelude::*;

use crate::alist::alist_get;
use crate::ledger::HydraLedger;
use crate::mapping::{resolve_utxo, ResolveError, ResolvedUtxo};
use crate::model::{TxID, Utxo};
use crate::text::hex_encode;
use crate::text::hex_encoding;
use crate::utxos::{
    addr_pred, asset_pred, bech32_of, candidates, contains_key_string, in_refs, parse_txid,
    ref_key, refs_pred, txid_parsing, LedgerError, UtxoRefData,
};

verus! {

/// The ceiling on a narrowed candidate set: a deliberate backpressure
/// device bounding the worst-case work per resolve call.
pub const MAX_SEARCH_SPACE_SIZE: usize = 50;

/// A narrowing in progress: no restriction yet, or a bounded candidate
/// list of snapshot keys.
pub enum Subset {
    All,
    Specific(Vec<TxID>),
}

pub ghost enum SubsetV {
    All,
    Specific(Seq<String>),
}

impl View for Subset {
    type V = SubsetV;

    open spec fn view(&self) -> SubsetV {
        match self {
            Subset::All => SubsetV::All,
            Subset::Specific(v) => SubsetV::Specific(v@),
        }
    }
}

/// Union of two narrowings: no restriction absorbs, and two candidate
/// lists join with the second's duplicates dropped.
pub open spec fn spec_union(a: SubsetV, b: SubsetV) -> SubsetV {
    match (a, b) {
        (SubsetV::All, _) => SubsetV::All,
        (_, SubsetV::All) => SubsetV::All,
        (SubsetV::Specific(s1), SubsetV::Specific(s2)) => SubsetV::Specific(
            s1 + s2.filter(|k: String| !in_refs(s1, k@)),
        ),
    }
}

/// Intersection of two narrowings: no restriction yields the other
/// operand, and two candidate lists keep the first's entries that occur in
/// the second.
pub open spec fn spec_intersection(a: SubsetV, b: SubsetV) -> SubsetV {
    match (a, b) {
        (SubsetV::All, x) => x,
        (x, SubsetV::All) => x,
        (SubsetV::Specific(s1), SubsetV::Specific(s2)) => SubsetV::Specific(
            s1.filter(|k: String| in_refs(s2, k@)),
        ),
    }
}

pub open spec fn spec_intersection_fold(acc: SubsetV, vs: Seq<SubsetV>) -> SubsetV
    decreases vs.len(),
{
    if vs.len() == 0 {
        acc
    } else {
        spec_intersection_fold(spec_intersection(acc, vs[0]), vs.drop_first())
    }
}

proof fn lemma_string_filter_take_zero(s: Seq<String>, pred: spec_fn(String) -> bool)
    ensures
        s.take(0).filter(pred) == Seq::<String>::empty(),
{
    reveal_with_fuel(Seq::filter, 1);
    assert(s.take(0) =~= Seq::<String>::empty());
}

proof fn lemma_string_filter_take_step(s: Seq<String>, pred: spec_fn(String) -> bool, i: int)
    requires
        0 <= i < s.len(),
    ensures
        pred(s[i]) ==> s.take(i + 1).filter(pred) == s.take(i).filter(pred).push(s[i]),
        !pred(s[i]) ==> s.take(i + 1).filter(pred) == s.take(i).filter(pred),
{
    reveal_with_fuel(Seq::filter, 2);
    let e = s[i];
    assert(s.take(i + 1) =~= s.take(i) + seq![e]);
    Seq::<String>::filter_distributes_over_add(s.take(i), seq![e], pred);
    assert(seq![e].drop_last() =~= Seq::<String>::empty());
    assert(Seq::<String>::empty().filter(pred) =~= Seq::<String>::empty());
    assert(seq![e].last() == e);
    if pred(e) {
        assert(seq![e].filter(pred) =~= seq![e]);
        assert(s.take(i + 1).filter(pred) =~= s.take(i).filter(pred).push(e));
    } else {
        assert(seq![e].filter(pred) =~= Seq::<String>::empty());
        assert(s.take(i + 1).filter(pred) =~= s.take(i).filter(pred));
    }
}

impl Subset {
    /// Combines two narrowings by union.
    pub fn union(a: Self, b: Self) -> (r: Self)
        ensures
            r@ == spec_union(a@, b@),
    {
        match (a, b) {
            (Subset::All, _) => Subset::All,
            (_, Subset::All) => Subset::All,
            (Subset::Specific(s1), Subset::Specific(s2)) => {
                let ghost pred = |k: String| !in_refs(s1@, k@);
                let mut out: Vec<TxID> = Vec::new();
                let n1 = s1.len();
                for i in 0..n1
                    invariant
                        n1 == s1@.len(),
                        out@ =~= s1@.take(i as int),
                {
                    out.push(s1[i].clone());
                }
                proof {
                    assert(out@ =~= s1@);
                    lemma_string_filter_take_zero(s2@, pred);
                    assert(out@ =~= s1@ + s2@.take(0).filter(pred));
                }
                let n2 = s2.len();
                for i in 0..n2
                    invariant
                        n2 == s2@.len(),
                        pred == (|k: String| !in_refs(s1@, k@)),
                        out@ == s1@ + s2@.take(i as int).filter(pred),
                {
                    proof {
                        lemma_string_filter_take_step(s2@, pred, i as int);
                    }
                    if !contains_key_string(&s1, &s2[i]) {
                        out.push(s2[i].clone());
                        proof {
                            assert(out@ =~= s1@ + s2@.take(i + 1).filter(pred));
                        }
                    }
                }
                proof {
                    assert(s2@.take(n2 as int) == s2@);
                }
                Subset::Specific(out)
            }
        }
    }

    /// Combines two narrowings by intersection.
    pub fn intersection(a: Self, b: Self) -> (r: Self)
        ensures
            r@ == spec_intersection(a@, b@),
    {
        match (a, b) {
            (Subset::All, x) => x,
            (x, Subset::All) => x,
            (Subset::Specific(s1), Subset::Specific(s2)) => {
                let ghost pred = |k: String| in_refs(s2@, k@);
                let mut out: Vec<TxID> = Vec::new();
                proof {
                    lemma_string_filter_take_zero(s1@, pred);
                }
                let n1 = s1.len();
                for i in 0..n1
                    invariant
                        n1 == s1@.len(),
                        pred == (|k: String| in_refs(s2@, k@)),
                        out@ == s1@.take(i as int).filter(pred),
                {
                    proof {
                        lemma_string_filter_take_step(s1@, pred, i as int);
                    }
                    if contains_key_string(&s2, &s1[i]) {
                        out.push(s1[i].clone());
                        proof {
                            assert(out@ =~= s1@.take(i + 1).filter(pred));
                        }
                    }
                }
                proof {
                    assert(s1@.take(n1 as int) == s1@);
                }
                Subset::Specific(out)
            }
        }
    }

    /// Folds a list of narrowings into one by intersection, starting from
    /// no restriction.
    pub fn intersection_of_all(subsets: Vec<Subset>) -> (r: Self)
        ensures
            r@ == spec_intersection_fold(SubsetV::All, subsets@.map_values(|s: Subset| s@)),
    {
        let ghost all = subsets@.map_values(|s: Subset| s@);
        let mut rest = subsets;
        let mut result = Subset::All;
        proof {
            assert(all.skip(0) =~= all);
        }
        let ghost mut consumed: int = 0;
        while rest.len() > 0
            invariant
                0 <= consumed <= all.len(),
                rest@.len() == all.len() - consumed,
                rest@.map_values(|s: Subset| s@) =~= all.skip(consumed),
                spec_intersection_fold(SubsetV::All, all)
                    == spec_intersection_fold(result@, all.skip(consumed)),
            decreases rest@.len(),
        {
            let s = rest.remove(0);
            proof {
                assert(all.skip(consumed)[0] == s@);
                assert(rest@.map_values(|x: Subset| x@) =~= all.skip(consumed + 1)) by {
                    assert(all.skip(consumed).drop_first() =~= all.skip(consumed + 1));
                }
                consumed = consumed + 1;
            }
            result = Subset::intersection(result, s);
        }
        proof {
            assert(all.skip(consumed) =~= Seq::<SubsetV>::empty());
        }
        result
    }

    /// Whether a narrowing admits no candidate at all; no restriction is
    /// not empty.
    pub fn is_empty(&self) -> (r: bool)
        ensures
            r == (self@ matches SubsetV::Specific(s) && s.len() == 0),
    {
        match self {
            Subset::All => false,
            Subset::Specific(s) => s.len() == 0,
        }
    }
}

/// One minimum-amount requirement: a plain minimum when no policy is
/// named, otherwise a policy, asset name and minimum for that asset.
#[derive(Clone, Debug)]
pub struct AssetConstraint {
    pub policy: Option<Vec<u8>>,
    pub asset_name: Vec<u8>,
    pub amount: i128,
}

/// An input query: up to one constraint of each independent kind. A `None`
/// constraint does not narrow.
#[derive(Clone, Debug)]
pub struct InputQuery {
    /// Address bytes the UTXO must sit at.
    pub address: Option<Vec<u8>>,
    /// Minimum amounts the UTXO must meet, all together.
    pub min_amount: Option<Vec<AssetConstraint>>,
    /// Explicit references the UTXO must be among.
    pub refs: Option<Vec<UtxoRefData>>,
}

/// Whether a UTXO's plain amount meets a minimum.
pub open spec fn spec_lovelace_ok(u: Utxo, amount: i128) -> bool {
    u.value.spec_lovelace() >= amount
}

/// Whether a UTXO holds at least `amount` of the asset under `policy` and
/// `name`, looked up by the lowercase base16 keys the wire uses.
pub open spec fn spec_custom_ok(u: Utxo, policy: Seq<u8>, name: Seq<u8>, amount: i128) -> bool {
    match alist_get(u.value.spec_assets_by_policy(hex_encoding(policy)), hex_encoding(name)) {
        Some(held) => held as int >= amount,
        None => false,
    }
}

pub open spec fn spec_constraint_ok(u: Utxo, c: AssetConstraint) -> bool {
    match c.policy {
        None => spec_lovelace_ok(u, c.amount),
        Some(p) => spec_custom_ok(u, p@, c.asset_name@, c.amount),
    }
}

pub open spec fn spec_min_amount_ok(u: Utxo, cs: Seq<AssetConstraint>) -> bool {
    forall|i: int| 0 <= i < cs.len() ==> spec_constraint_ok(u, #[trigger] cs[i])
}

/// The exact per-UTXO predicate: every minimum-amount entry must be met;
/// a query without one matches every UTXO.
pub open spec fn spec_utxo_matches(u: Utxo, q: InputQuery) -> bool {
    match q.min_amount {
        Some(cs) => spec_min_amount_ok(u, cs@),
        None => true,
    }
}

fn utxo_includes_lovelace_amount(utxo: &Utxo, amount: i128) -> (r: bool)
    ensures
        r == spec_lovelace_ok(*utxo, amount),
{
    utxo.value.lovelace() >= amount
}

fn utxo_includes_custom_asset(utxo: &Utxo, policy: &Vec<u8>, name: &Vec<u8>, amount: i128) -> (r:
    bool)
    ensures
        r == spec_custom_ok(*utxo, policy@, name@, amount),
{
    let policy_hex = hex_encode(policy.as_slice());
    let assets = utxo.value.assets_by_policy(&policy_hex);
    let name_hex = hex_encode(name.as_slice());
    match crate::alist::alist_lookup(&assets, &name_hex) {
        Some(held) => *held as i128 >= amount,
        None => false,
    }
}

fn utxo_matches_min_amount(utxo: &Utxo, cs: &Vec<AssetConstraint>) -> (r: bool)
    ensures
        r == spec_min_amount_ok(*utxo, cs@),
{
    let n = cs.len();
    for i in 0..n
        invariant
            n == cs@.len(),
            forall|j: int| 0 <= j < i ==> spec_constraint_ok(*utxo, #[trigger] cs@[j]),
    {
        let ok = match &cs[i].policy {
            None => utxo_includes_lovelace_amount(utxo, cs[i].amount),
            Some(p) => utxo_includes_custom_asset(utxo, p, &cs[i].asset_name, cs[i].amount),
        };
        if !ok {
            return false;
        }
    }
    true
}

/// Applies the exact per-UTXO predicate of a query.
pub fn utxo_matches(utxo: &Utxo, criteria: &InputQuery) -> (r: bool)
    ensures
        r == spec_utxo_matches(*utxo, *criteria),
{
    match &criteria.min_amount {
        Some(cs) => utxo_matches_min_amount(utxo, cs),
        None => true,
    }
}

/// Whether one asset constraint narrows the candidate set: a zero minimum
/// and the native unit are checked only in the exact predicate.
pub open spec fn constraint_narrows(c: AssetConstraint) -> bool {
    c.amount != 0 && c.policy is Some
}

/// The subset one asset constraint narrows to.
pub open spec fn spec_narrow_asset(entries: Seq<(String, Utxo)>, c: AssetConstraint) -> SubsetV {
    if !constraint_narrows(c) {
        SubsetV::All
    } else {
        SubsetV::Specific(candidates(
            entries,
            asset_pred(
                hex_encoding(c.policy->Some_0@),
                hex_encoding(c.asset_name@),
            ),
        ))
    }
}

pub open spec fn spec_narrow_assets_fold(
    acc: SubsetV,
    entries: Seq<(String, Utxo)>,
    cs: Seq<AssetConstraint>,
) -> SubsetV
    decreases cs.len(),
{
    if cs.len() == 0 {
        acc
    } else {
        spec_narrow_assets_fold(
            spec_intersection(acc, spec_narrow_asset(entries, cs[0])),
            entries,
            cs.drop_first(),
        )
    }
}

/// The candidate keys an explicit reference list names.
pub open spec fn in_ref_datas(refs: Seq<UtxoRefData>, k: Seq<char>) -> bool {
    exists|i: int| 0 <= i < refs.len()
        && ref_key((#[trigger] refs[i]).txid@, refs[i].index) == k
}

pub open spec fn refdata_pred(refs: Seq<UtxoRefData>) -> spec_fn((String, Utxo)) -> bool {
    |p: (String, Utxo)| in_ref_datas(refs, p.0@)
}

/// The three independent constraint kinds, each narrowed against the
/// snapshot and intersected; a kind absent from the query contributes no
/// restriction.
pub open spec fn spec_narrow(entries: Seq<(String, Utxo)>, q: InputQuery) -> SubsetV {
    let by_address = match q.address {
        Some(a) => SubsetV::Specific(candidates(entries, addr_pred(bech32_of(a@)->Some_0))),
        None => SubsetV::All,
    };
    let by_assets = match q.min_amount {
        Some(cs) => spec_narrow_assets_fold(SubsetV::All, entries, cs@),
        None => SubsetV::All,
    };
    let by_refs = match q.refs {
        Some(refs) => SubsetV::Specific(candidates(entries, refdata_pred(refs@))),
        None => SubsetV::All,
    };
    spec_intersection_fold(SubsetV::All, seq![by_address, by_assets, by_refs])
}

/// Whether a narrowing is too broad to scan: unrestricted, or over the
/// ceiling.
pub open spec fn spec_too_broad(sv: SubsetV) -> bool {
    match sv {
        SubsetV::All => true,
        SubsetV::Specific(c) => c.len() > MAX_SEARCH_SPACE_SIZE,
    }
}

/// The first snapshot entry among the candidates that the exact predicate
/// accepts.
pub open spec fn spec_first_match(
    entries: Seq<(String, Utxo)>,
    cands: Seq<String>,
    q: InputQuery,
) -> Option<(String, Utxo)>
    decreases entries.len(),
{
    if entries.len() == 0 {
        None::<(String, Utxo)>
    } else if in_refs(cands, entries[0].0@) && spec_utxo_matches(entries[0].1, q) {
        Some(entries[0])
    } else {
        spec_first_match(entries.drop_first(), cands, q)
    }
}

/// Why a query was not resolved.
#[derive(Clone, Copy, Debug, PartialEq, Eq, Structural)]
pub enum SelectError {
    /// The query's address bytes do not render as bech32 text.
    BadQueryAddress,
    /// The query narrows nothing, or to more candidates than the ceiling.
    QueryTooBroad,
    /// The matched UTXO's key is not of the `"<hex txid>#<index>"` form.
    BadRef,
    /// The matched UTXO's own record does not decode.
    Resolve(ResolveError),
}

/// A stateless query engine over one ledger view.
pub struct InputSelector {
    pub ledger: HydraLedger,
    pub network: u8,
}

impl InputSelector {
    pub fn new(ledger: HydraLedger, network: u8) -> (r: Self)
        ensures
            r.ledger == ledger,
            r.network == network,
    {
        InputSelector { ledger, network }
    }

    fn narrow_by_address(&self, address: &Vec<u8>) -> (r: Result<Subset, SelectError>)
        ensures
            match bech32_of(address@) {
                Some(a) => r matches Ok(s) && s@ == SubsetV::Specific(candidates(
                    self.ledger.utxos.entries_seq(),
                    addr_pred(a),
                )),
                None => r == Err::<Subset, SelectError>(SelectError::BadQueryAddress),
            },
    {
        match self.ledger.get_utxo_by_address(crate::datum::clone_bytes(address)) {
            Ok(keys) => Ok(Subset::Specific(keys)),
            Err(LedgerError::InvalidAddress) => Err(SelectError::BadQueryAddress),
        }
    }

    fn narrow_by_asset_presence(&self, c: &AssetConstraint) -> (r: Subset)
        ensures
            r@ == spec_narrow_asset(self.ledger.utxos.entries_seq(), *c),
    {
        if c.amount == 0 {
            return Subset::All;
        }
        let policy = match &c.policy {
            None => {
                return Subset::All;
            }
            Some(p) => p,
        };
        Subset::Specific(self.ledger.get_utxo_by_asset(policy.as_slice(), c.asset_name.as_slice()))
    }

    fn narrow_by_multi_asset_presence(&self, cs: &Vec<AssetConstraint>) -> (r: Subset)
        ensures
            r@ == spec_narrow_assets_fold(SubsetV::All, self.ledger.utxos.entries_seq(), cs@),
    {
        let ghost entries = self.ledger.utxos.entries_seq();
        let mut matches = Subset::All;
        proof {
            assert(cs@.skip(0) =~= cs@);
        }
        let n = cs.len();
        for i in 0..n
            invariant
                n == cs@.len(),
                entries == self.ledger.utxos.entries_seq(),
                spec_narrow_assets_fold(SubsetV::All, entries, cs@)
                    == spec_narrow_assets_fold(matches@, entries, cs@.skip(i as int)),
        {
            proof {
                assert(cs@.skip(i as int)[0] == cs@[i as int]);
                assert(cs@.skip(i as int).drop_first() =~= cs@.skip(i + 1));
            }
            let next = self.narrow_by_asset_presence(&cs[i]);
            matches = Subset::intersection(matches, next);
        }
        proof {
            assert(cs@.skip(n as int) =~= Seq::<AssetConstraint>::empty());
        }
        matches
    }

    fn narrow_by_ref(&self, refs: &Vec<UtxoRefData>) -> (r: Subset)
        ensures
            r@ == SubsetV::Specific(candidates(
                self.ledger.utxos.entries_seq(),
                refdata_pred(refs@),
            )),
    {
        let n = refs.len();
        let mut keys: Vec<TxID> = Vec::new();
        for i in 0..n
            invariant
                n == refs@.len(),
                keys@.len() == i,
                forall|j: int| 0 <= j < i ==> (#[trigger] keys@[j])@
                    == ref_key(refs@[j].txid@, refs@[j].index),
        {
            keys.push(crate::utxos::format_ref(&refs[i]));
        }
        let found = self.ledger.utxos.get_utxo_by_refs(&keys);
        proof {
            let entries = self.ledger.utxos.entries_seq();
            assert forall|w: int| 0 <= w < entries.len() implies
                refs_pred(keys@)(#[trigger] entries[w]) == refdata_pred(refs@)(entries[w]) by {
                let k = entries[w].0@;
                if in_refs(keys@, k) {
                    let j = choose|j: int| 0 <= j < keys@.len() && (#[trigger] keys@[j])@ == k;
                    assert(ref_key(refs@[j].txid@, refs@[j].index) == k);
                }
                if in_ref_datas(refs@, k) {
                    let j = choose|j: int| 0 <= j < refs@.len()
                        && ref_key((#[trigger] refs@[j]).txid@, refs@[j].index) == k;
                    assert(keys@[j]@ == k);
                }
            }
            lemma_filter_congruent(
                self.ledger.utxos.entries_seq(),
                refs_pred(keys@),
                refdata_pred(refs@),
            );
        }
        Subset::Specific(found)
    }

    fn narrow_search_space(&self, criteria: &InputQuery) -> (r: Result<Subset, SelectError>)
        ensures
            match r {
                Ok(s) => (criteria.address matches Some(a) ==> bech32_of(a@) is Some)
                    && s@ == spec_narrow(self.ledger.utxos.entries_seq(), *criteria),
                Err(e) => e == SelectError::BadQueryAddress
                    && (criteria.address matches Some(a) && bech32_of(a@) is None),
            },
    {
        let matching_address = match &criteria.address {
            Some(address) => {
                match self.narrow_by_address(address) {
                    Ok(s) => s,
                    Err(e) => {
                        return Err(e);
                    }
                }
            }
            None => Subset::All,
        };
        let matching_assets = match &criteria.min_amount {
            Some(cs) => self.narrow_by_multi_asset_presence(cs),
            None => Subset::All,
        };
        let matching_refs = match &criteria.refs {
            Some(refs) => self.narrow_by_ref(refs),
            None => Subset::All,
        };
        let ghost parts = seq![matching_address@, matching_assets@, matching_refs@];
        let mut subsets: Vec<Subset> = Vec::new();
        subsets.push(matching_address);
        subsets.push(matching_assets);
        subsets.push(matching_refs);
        proof {
            assert(subsets@.map_values(|s: Subset| s@) =~= parts);
        }
        Ok(Subset::intersection_of_all(subsets))
    }

    /// Resolves a query to zero or one matching UTXO: narrows by the
    /// constraints present, rejects an unbounded or over-ceiling candidate
    /// set as too broad, then returns the first candidate in snapshot
    /// order that meets every minimum amount, resolved to its reference,
    /// address bytes, datum expression and canonical assets.
    ///
    /// A query that narrows nothing, or whose narrowed candidate set
    /// exceeds `MAX_SEARCH_SPACE_SIZE`, always fails with the
    /// query-too-broad error: the contract's too-broad branch fixes the
    /// result from `spec_narrow` alone, so no UTXO record and no
    /// minimum-amount check can influence it, and the body returns before
    /// the scan loop is reached.
    pub fn select(&self, criteria: &InputQuery) -> (r: Result<Vec<ResolvedUtxo>, SelectError>)
        ensures
            ({
                let entries = self.ledger.utxos.entries_seq();
                let narrowed = spec_narrow(entries, *criteria);
                if criteria.address matches Some(a) && bech32_of(a@) is None {
                    r == Err::<Vec<ResolvedUtxo>, SelectError>(SelectError::BadQueryAddress)
                } else if spec_too_broad(narrowed) {
                    r == Err::<Vec<ResolvedUtxo>, SelectError>(SelectError::QueryTooBroad)
                } else {
                    match spec_first_match(entries, narrowed->Specific_0, *criteria) {
                        None => r matches Ok(v) && v@.len() == 0,
                        Some(m) => match txid_parsing(m.0@) {
                            None => r == Err::<Vec<ResolvedUtxo>, SelectError>(
                                SelectError::BadRef,
                            ),
                            Some(parsed) => match r {
                                Ok(v) => v@.len() == 1
                                    && crate::mapping::utxo_resolved(
                                        parsed.0,
                                        parsed.1,
                                        m.1,
                                        v@[0],
                                    ),
                                Err(SelectError::Resolve(e)) => crate::mapping::utxo_resolve_error(
                                    m.1,
                                    e,
                                ),
                                Err(_) => false,
                            },
                        },
                    }
                }
            }),
    {
        let ghost entries = self.ledger.utxos.entries_seq();
        let search_space = match self.narrow_search_space(criteria) {
            Ok(s) => s,
            Err(e) => {
                return Err(e);
            }
        };
        let cands = match search_space {
            Subset::All => {
                return Err(SelectError::QueryTooBroad);
            }
            Subset::Specific(c) => {
                if c.len() > MAX_SEARCH_SPACE_SIZE {
                    return Err(SelectError::QueryTooBroad);
                }
                c
            }
        };
        let snapshot_entries = self.ledger.utxos.entries();
        proof {
            assert(entries.skip(0) =~= entries);
        }
        let n = snapshot_entries.len();
        for i in 0..n
            invariant
                n == entries.len(),
                entries == self.ledger.utxos.entries_seq(),
                snapshot_entries@ == entries,
                !(criteria.address matches Some(a) && bech32_of(a@) is None),
                spec_narrow(entries, *criteria) == SubsetV::Specific(cands@),
                !spec_too_broad(spec_narrow(entries, *criteria)),
                spec_first_match(entries, cands@, *criteria)
                    == spec_first_match(entries.skip(i as int), cands@, *criteria),
        {
            proof {
                assert(entries.skip(i as int)[0] == entries[i as int]);
                assert(entries.skip(i as int).drop_first() =~= entries.skip(i + 1));
            }
            if contains_key_string(&cands, &snapshot_entries[i].0)
                && utxo_matches(&snapshot_entries[i].1, criteria) {
                let parsed = match parse_txid(snapshot_entries[i].0.as_str()) {
                    Some(p) => p,
                    None => {
                        return Err(SelectError::BadRef);
                    }
                };
                match resolve_utxo(parsed, &snapshot_entries[i].1) {
                    Ok(resolved) => {
                        let mut out: Vec<ResolvedUtxo> = Vec::new();
                        out.push(resolved);
                        return Ok(out);
                    }
                    Err(e) => {
                        return Err(SelectError::Resolve(e));
                    }
                }
            }
        }
        proof {
            assert(entries.skip(n as int) =~= Seq::<(String, Utxo)>::empty());
        }
        Ok(Vec::new())
    }
}

proof fn lemma_filter_congruent(
    s: Seq<(String, Utxo)>,
    p1: spec_fn((String, Utxo)) -> bool,
    p2: spec_fn((String, Utxo)) -> bool,
)
    requires
        forall|i: int| 0 <= i < s.len() ==> p1(#[trigger] s[i]) == p2(s[i]),
    ensures
        s.filter(p1) == s.filter(p2),
    decreases s.len(),
{
    reveal_with_fuel(Seq::filter, 2);
    if s.len() > 0 {
        assert forall|i: int| 0 <= i < s.drop_last().len() implies
            p1(#[trigger] s.drop_last()[i]) == p2(s.drop_last()[i]) by {
            assert(s.drop_last()[i] == s[i]);
        }
        lemma_filter_congruent(s.drop_last(), p1, p2);
        assert(p1(s.last()) == p2(s.last()));
    }
}

/// Minimum-amount entries that do not narrow (a zero minimum, or the
/// native unit) leave the asset narrowing unrestricted.
proof fn lemma_trivial_constraints_do_not_narrow(
    entries: Seq<(String, Utxo)>,
    cs: Seq<AssetConstraint>,
)
    requires
        forall|i: int| 0 <= i < cs.len() ==> !constraint_narrows(#[trigger] cs[i]),
    ensures
        spec_narrow_assets_fold(SubsetV::All, entries, cs) == SubsetV::All,
    decreases cs.len(),
{
    if cs.len() > 0 {
        assert(spec_narrow_asset(entries, cs[0]) == SubsetV::All);
        assert forall|i: int| 0 <= i < cs.drop_first().len() implies
            !constraint_narrows(#[trigger] cs.drop_first()[i]) by {
            assert(cs.drop_first()[i] == cs[i + 1]);
        }
        lemma_trivial_constraints_do_not_narrow(entries, cs.drop_first());
    }
}

/// Law: a query with zero narrowing constraints — no address, no explicit
/// references, and minimum amounts (if any) that are all zero or on the
/// native unit — narrows nothing, so `select`'s contract forces the
/// query-too-broad error. That outcome is fixed by the narrowing alone:
/// no UTXO record is fetched and no minimum-amount check can affect it,
/// whatever the snapshot holds.
pub proof fn lemma_unconstrained_query_too_broad(entries: Seq<(String, Utxo)>, q: InputQuery)
    requires
        q.address is None,
        q.refs is None,
        q.min_amount matches Some(cs) ==> forall|i: int| 0 <= i < cs@.len()
            ==> !constraint_narrows(#[trigger] cs@[i]),
    ensures
        spec_narrow(entries, q) == SubsetV::All,
        spec_too_broad(spec_narrow(entries, q)),
{
    reveal_with_fuel(spec_intersection_fold, 5);
    match q.min_amount {
        Some(cs) => {
            lemma_trivial_constraints_do_not_narrow(entries, cs@);
        }
        None => {}
    }
    let parts = seq![SubsetV::All, SubsetV::All, SubsetV::All];
    assert(parts.drop_first() =~= seq![SubsetV::All, SubsetV::All]);
    assert(parts.drop_first().drop_first() =~= seq![SubsetV::All]);
    assert(parts.drop_first().drop_first().drop_first() =~= Seq::<SubsetV>::empty());
    assert(spec_intersection(SubsetV::All, SubsetV::All) == SubsetV::All);
}

} // verus!
