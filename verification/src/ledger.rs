//! The ledger handle the resolve path queries: a UTXO snapshot plus the
//! network and endpoint configuration the collaborators need.
use vstd::prelude::*;

use crate::model::{TxID, Utxo};
use crate::store::UtxoSnapshot;
use crate::text::hex_encoding;
use crate::utxos::{addr_pred, asset_pred, bech32_of, candidates, refs_pred, LedgerError};

verus! {

/// A point-in-time view of the head's ledger, as the resolve path reads
/// it.
pub struct HydraLedger {
    pub utxos: UtxoSnapshot,
    pub network: u8,
    pub http_url: String,
}

impl HydraLedger {
    /// The keys of the UTXOs sitting at an address, given as address
    /// bytes; an error when the bytes do not render as bech32 text.
    pub fn get_utxo_by_address(&self, address: Vec<u8>) -> (r: Result<Vec<TxID>, LedgerError>)
        ensures
            match bech32_of(address@) {
                Some(a) => r matches Ok(v) && v@ == candidates(self.utxos.entries_seq(), addr_pred(a)),
                None => r == Err::<Vec<TxID>, LedgerError>(LedgerError::InvalidAddress),
            },
    {
        self.utxos.get_utxo_by_address(address.as_slice())
    }

    /// The keys of the UTXOs holding the given asset.
    pub fn get_utxo_by_asset(&self, policy: &[u8], name: &[u8]) -> (r: Vec<TxID>)
        ensures
            r@ == candidates(
                self.utxos.entries_seq(),
                asset_pred(hex_encoding(policy@), hex_encoding(name@)),
            ),
    {
        self.utxos.get_utxo_by_asset(policy, name)
    }

    /// The snapshot keys that occur in an explicit reference list, in
    /// snapshot order.
    pub fn get_utxo_by_refs(&self, refs: Vec<TxID>) -> (r: Vec<TxID>)
        ensures
            r@ == candidates(self.utxos.entries_seq(), refs_pred(refs@)),
    {
        self.utxos.get_utxo_by_refs(&refs)
    }

    /// The full records of the snapshot entries an explicit reference list
    /// names, in snapshot order.
    pub fn get_utxos<'a>(&'a self, refs: &Vec<TxID>) -> (r: Vec<(&'a TxID, &'a Utxo)>)
        ensures
            ({
                let f = self.utxos.entries_seq().filter(refs_pred(refs@));
                &&& r@.len() == f.len()
                &&& forall|i: int| 0 <= i < f.len()
                    ==> *(#[trigger] r@[i]).0 == f[i].0 && *r@[i].1 == f[i].1
            }),
    {
        let ghost pred = refs_pred(refs@);
        let entries = self.utxos.entries();
        let n = entries.len();
        let mut r: Vec<(&TxID, &Utxo)> = Vec::new();
        proof {
            assert(self.utxos.entries_seq().take(0) =~= Seq::<(String, Utxo)>::empty());
            crate::utxos::lemma_filter_take_zero(self.utxos.entries_seq(), pred);
        }
        for i in 0..n
            invariant
                n == entries@.len(),
                entries@ == self.utxos.entries_seq(),
                pred == refs_pred(refs@),
                ({
                    let f = self.utxos.entries_seq().take(i as int).filter(pred);
                    &&& r@.len() == f.len()
                    &&& forall|w: int| 0 <= w < f.len()
                        ==> *(#[trigger] r@[w]).0 == f[w].0 && *r@[w].1 == f[w].1
                }),
        {
            proof {
                crate::utxos::lemma_filter_take_step(self.utxos.entries_seq(), pred, i as int);
            }
            if crate::utxos::contains_key_string(refs, &entries[i].0) {
                r.push((&entries[i].0, &entries[i].1));
            }
        }
        proof {
            assert(self.utxos.entries_seq().take(n as int) == self.utxos.entries_seq());
        }
        r
    }
}

} // verus!
