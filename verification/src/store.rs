//! The ledger store: an in-memory snapshot of the head's UTXO set, sync
//! progress and head status. Every mutator fully replaces the field it
//! touches — snapshots are never merged — and each method's contract pins
//! the new state through a ghost model of the store.
use vstd::prelude::*;

use crate::alist::{alist_get, alist_lookup, alist_map};
use crate::model::{Event, HeadStatus, Progress, TxID, Utxo};

verus! {

/// A point-in-time UTXO set, keyed by `"<hex txid>#<index>"`. The wire
/// delivers it as a JSON object; it is held as a vector of key-value
/// entries, and a duplicated key behaves as if only its first occurrence
/// were present (the wire format cannot produce duplicates).
pub struct UtxoSnapshot {
    entries: Vec<(TxID, Utxo)>,
}

impl UtxoSnapshot {
    /// The underlying entry sequence, in wire order.
    pub closed spec fn entries_seq(&self) -> Seq<(String, Utxo)> {
        self.entries@
    }

    /// The map this snapshot denotes.
    pub open spec fn as_map(&self) -> Map<Seq<char>, Utxo> {
        alist_map(self.entries_seq())
    }

    pub fn new() -> (r: Self)
        ensures
            r.entries_seq() == Seq::<(String, Utxo)>::empty(),
    {
        UtxoSnapshot { entries: Vec::new() }
    }

    pub fn from_entries(entries: Vec<(TxID, Utxo)>) -> (r: Self)
        ensures
            r.entries_seq() == entries@,
    {
        UtxoSnapshot { entries }
    }

    pub fn len(&self) -> (r: usize)
        ensures
            r == self.entries_seq().len(),
    {
        self.entries.len()
    }

    pub fn entries(&self) -> (r: &Vec<(TxID, Utxo)>)
        ensures
            r@ == self.entries_seq(),
    {
        &self.entries
    }

    /// Looks a UTXO up by its key.
    pub fn get(&self, tx_id: &String) -> (r: Option<&Utxo>)
        ensures
            match r {
                Some(u) => alist_get(self.entries_seq(), tx_id@) == Some(*u),
                None => alist_get(self.entries_seq(), tx_id@) is None,
            },
    {
        alist_lookup(&self.entries, tx_id)
    }
}

/// The store's state as contracts speak of it.
pub ghost struct StoreModel {
    pub utxos: Map<Seq<char>, Utxo>,
    pub head_status: HeadStatus,
    pub seq: u64,
    pub timestamp: Seq<char>,
}

/// A snapshot-bearing update replaces the whole UTXO map; nothing else
/// moves.
pub open spec fn snapshot_applied(m: StoreModel, entries: Seq<(String, Utxo)>) -> StoreModel {
    StoreModel { utxos: alist_map(entries), ..m }
}

/// What one inbound event does to the store: snapshot-bearing events
/// replace the UTXO map (and set the head status where the protocol says
/// so), validation events leave the store untouched.
pub open spec fn event_applied(m: StoreModel, event: Event) -> StoreModel {
    match event {
        Event::Greetings { head_status, snapshot } => StoreModel {
            utxos: alist_map(snapshot@),
            head_status,
            ..m
        },
        Event::SnapshotConfirmed { snapshot, seq, timestamp } => StoreModel {
            utxos: alist_map(snapshot@),
            seq,
            timestamp: timestamp@,
            ..m
        },
        Event::HeadIsOpen { snapshot } => StoreModel {
            utxos: alist_map(snapshot@),
            head_status: HeadStatus::Open,
            ..m
        },
        Event::TxValid { .. } => m,
        Event::TxInvalid { .. } => m,
    }
}

/// Whether an event is republished to confirmation waiters rather than
/// stored: exactly the two validation outcomes.
pub open spec fn event_republished(event: Event) -> bool {
    event matches Event::TxValid { .. } || event matches Event::TxInvalid { .. }
}

/// Connection configuration of the head side.
#[derive(Clone, Debug)]
pub struct Config {
    pub network: u8,
    pub ws_url: String,
    pub http_url: String,
}

/// Mutable head-side state. All mutation is funneled through the methods
/// here; every mutator fully replaces the field it names.
pub struct LedgerStore {
    utxos: UtxoSnapshot,
    progress: Progress,
    head_status: HeadStatus,
}

impl LedgerStore {
    pub closed spec fn spec_utxos(&self) -> Seq<(String, Utxo)> {
        self.utxos.entries_seq()
    }

    pub closed spec fn spec_progress(&self) -> (u64, Seq<char>) {
        (self.progress.seq, self.progress.timestamp@)
    }

    pub closed spec fn spec_head_status(&self) -> HeadStatus {
        self.head_status
    }

    /// The ghost model of the current state.
    pub open spec fn model(&self) -> StoreModel {
        StoreModel {
            utxos: alist_map(self.spec_utxos()),
            head_status: self.spec_head_status(),
            seq: self.spec_progress().0,
            timestamp: self.spec_progress().1,
        }
    }

    /// Created empty, with the head assumed closed until it reports
    /// otherwise.
    pub fn new() -> (r: Self)
        ensures
            r.spec_utxos() == Seq::<(String, Utxo)>::empty(),
            r.spec_head_status() == HeadStatus::Closed,
            r.spec_progress() == (0u64, Seq::<char>::empty()),
    {
        LedgerStore {
            utxos: UtxoSnapshot::new(),
            progress: Progress { seq: 0, timestamp: String::new() },
            head_status: HeadStatus::Closed,
        }
    }

    /// Full replacement of the UTXO set together with the reported head
    /// status.
    pub fn apply_bootstrap(&mut self, head_status: HeadStatus, utxos: UtxoSnapshot)
        ensures
            final(self).spec_utxos() == utxos.entries_seq(),
            final(self).model() == (StoreModel {
                utxos: alist_map(utxos.entries_seq()),
                head_status,
                ..old(self).model()
            }),
    {
        self.utxos = utxos;
        self.head_status = head_status;
    }

    /// Full replacement of the UTXO set; status and progress keep their
    /// values.
    pub fn apply_snapshot(&mut self, utxos: UtxoSnapshot)
        ensures
            final(self).spec_utxos() == utxos.entries_seq(),
            final(self).model() == snapshot_applied(old(self).model(), utxos.entries_seq()),
    {
        self.utxos = utxos;
    }

    pub fn set_head_status(&mut self, status: HeadStatus)
        ensures
            final(self).model() == (StoreModel { head_status: status, ..old(self).model() }),
    {
        self.head_status = status;
    }

    pub fn update_progress(&mut self, seq: u64, timestamp: String)
        ensures
            final(self).model() == (StoreModel {
                seq,
                timestamp: timestamp@,
                ..old(self).model()
            }),
    {
        self.progress = Progress { seq, timestamp };
    }

    /// A reader sees the UTXO set exactly as some single update left it.
    pub fn read_snapshot(&self) -> (r: &UtxoSnapshot)
        ensures
            r.entries_seq() == self.spec_utxos(),
            r.as_map() == self.model().utxos,
    {
        &self.utxos
    }

    pub fn read_progress(&self) -> (r: Progress)
        ensures
            r.seq == self.spec_progress().0,
            r.timestamp@ == self.spec_progress().1,
    {
        Progress { seq: self.progress.seq, timestamp: self.progress.timestamp.clone() }
    }

    pub fn read_head_status(&self) -> (r: HeadStatus)
        ensures
            r == self.spec_head_status(),
    {
        self.head_status
    }

    /// Applies one inbound event: snapshot-bearing events replace the UTXO
    /// set per `event_applied`; the two validation outcomes never touch the
    /// store and are handed back for republication on the event bus.
    pub fn apply_event(&mut self, event: Event) -> (r: Option<Event>)
        ensures
            final(self).model() == event_applied(old(self).model(), event),
            event_republished(event) ==> r == Some(event),
            !event_republished(event) ==> r is None,
    {
        match event {
            Event::Greetings { head_status, snapshot } => {
                self.apply_bootstrap(head_status, UtxoSnapshot::from_entries(snapshot));
                None
            }
            Event::SnapshotConfirmed { snapshot, seq, timestamp } => {
                self.apply_snapshot(UtxoSnapshot::from_entries(snapshot));
                self.update_progress(seq, timestamp);
                None
            }
            Event::HeadIsOpen { snapshot } => {
                self.apply_snapshot(UtxoSnapshot::from_entries(snapshot));
                self.set_head_status(HeadStatus::Open);
                None
            }
            Event::TxValid { tx_id } => Some(Event::TxValid { tx_id }),
            Event::TxInvalid { transaction, validation_error } => {
                Some(Event::TxInvalid { transaction, validation_error })
            }
        }
    }
}

/// A run of snapshot updates, applied in order.
pub open spec fn snapshots_applied(m: StoreModel, updates: Seq<Seq<(String, Utxo)>>) -> StoreModel
    decreases updates.len(),
{
    if updates.len() == 0 {
        m
    } else {
        snapshot_applied(snapshots_applied(m, updates.drop_last()), updates.last())
    }
}

/// Law: snapshot updates are full replacements. After the k-th update of
/// any run, the store holds exactly the map supplied by that update — no
/// entry of an earlier update survives, whatever the initial state was.
pub proof fn lemma_snapshot_full_replacement(
    m: StoreModel,
    updates: Seq<Seq<(String, Utxo)>>,
    k: int,
)
    requires
        0 <= k < updates.len(),
    ensures
        snapshots_applied(m, updates.take(k + 1)).utxos == alist_map(updates[k]),
{
    let t = updates.take(k + 1);
    assert(t.last() == updates[k]);
    assert(snapshots_applied(m, t) == snapshot_applied(snapshots_applied(m, t.drop_last()), updates[k]));
}

} // verus!
