//! The storage engine gated by the write-ahead log: a mutation reaches
//! the in-memory index only after the log has acknowledged it, so the
//! index never outpaces what is logged.

use vstd::hash_map::StringHashMap;
use vstd::prelude::*;

use crate::actor::WalActor;
use crate::encoder::spec_encode;
use crate::entry::EntryModel;
use crate::entry::WalEntry;
use crate::error::StorageError;
use crate::message::WalMessage;
use crate::replay::all_fit;
use crate::replay::apply_log;
use crate::replay::encode_all;
use crate::replay::index_view;
use crate::replay::lemma_encode_all_push;
use crate::replay::lemma_records_round_trip;
use crate::replay::spec_records;
use crate::writer::WalWriter;

verus! {

/// An in-memory index whose every mutation is logged first. The engine
/// owns the index; the actor it holds owns the writer.
pub struct MemoryStorageEngine<W: WalWriter> {
    db: StringHashMap<Vec<u8>>,
    wal: WalActor<W>,
    history: Ghost<Seq<EntryModel>>,
}

impl<W: WalWriter> MemoryStorageEngine<W> {
    /// The records acknowledged since the engine was created, in order.
    pub closed spec fn history(&self) -> Seq<EntryModel> {
        self.history@
    }

    /// The index's model.
    pub closed spec fn index(&self) -> Map<Seq<char>, Seq<u8>> {
        index_view(self.db@)
    }

    /// The log's bytes.
    pub closed spec fn log(&self) -> Seq<u8> {
        self.wal.contents()
    }

    /// How many log bytes are durable on stable storage.
    pub closed spec fn synced_len(&self) -> int {
        self.wal.synced_len()
    }

    /// Whether the log still accepts requests.
    pub closed spec fn wal_running(&self) -> bool {
        self.wal.running()
    }

    /// Whether the log's writer owes success to every operation.
    pub closed spec fn reliable(&self) -> bool {
        self.wal.reliable()
    }

    /// The write-ahead invariant, established at construction and
    /// maintained by every operation: the log holds exactly the
    /// encodings of the acknowledged records, in acknowledgment order,
    /// and the index is exactly their effect on an empty map.
    pub closed spec fn inv(&self) -> bool {
        &&& self.log() == encode_all(self.history())
        &&& all_fit(self.history())
        &&& self.index() == apply_log(self.history())
    }

    /// Creates an engine over a running log whose writer starts empty;
    /// the index starts empty too.
    pub fn new(wal: WalActor<W>) -> (r: Self)
        requires
            wal.running(),
            wal.contents() == Seq::<u8>::empty(),
        ensures
            r.inv(),
            r.wal_running(),
            r.reliable() == wal.reliable(),
            r.history() == Seq::<EntryModel>::empty(),
            r.index() == Map::<Seq<char>, Seq<u8>>::empty(),
            r.log() == Seq::<u8>::empty(),
    {
        let r = MemoryStorageEngine {
            db: StringHashMap::new(),
            wal,
            history: Ghost(Seq::empty()),
        };
        proof {
            assert(r.index() =~= Map::<Seq<char>, Seq<u8>>::empty());
            assert(apply_log(Seq::<EntryModel>::empty()) =~= Map::<Seq<char>, Seq<u8>>::empty());
        }
        r
    }

    /// Creates an engine over a running log that already holds exactly
    /// the given replayed records: the restart path. The index is
    /// rebuilt by applying the records in order, and the write-ahead
    /// invariant holds from the first moment on.
    pub fn resume(wal: WalActor<W>, entries: &Vec<WalEntry>) -> (r: Self)
        requires
            wal.running(),
            spec_records(wal.contents()) == Some(crate::entry::models_of(entries@)),
        ensures
            r.inv(),
            r.wal_running(),
            r.reliable() == wal.reliable(),
            r.history() == crate::entry::models_of(entries@),
            r.index() == apply_log(crate::entry::models_of(entries@)),
            r.log() == wal.contents(),
    {
        let db = crate::replay::rebuild_index(entries);
        proof {
            crate::replay::lemma_records_sound(wal.contents());
        }
        MemoryStorageEngine { db, wal, history: Ghost(crate::entry::models_of(entries@)) }
    }

    /// Logs a `Put` record and, only once the log has acknowledged it,
    /// inserts into the index. On a failed acknowledgment the index and
    /// the log are exactly as they were, and the error surfaces to the
    /// caller — this core never retries.
    pub fn set(&mut self, key: String, data: Vec<u8>) -> (r: Result<(), StorageError>)
        requires
            old(self).inv(),
        ensures
            final(self).inv(),
            final(self).wal_running() == old(self).wal_running(),
            final(self).reliable() == old(self).reliable(),
            old(self).wal_running() && old(self).reliable() ==> r is Ok,
            match r {
                Ok(()) => {
                    &&& old(self).wal_running()
                    &&& final(self).history() == old(self).history().push(
                        EntryModel::Put { key: key@, data: data@ },
                    )
                    &&& final(self).index() == old(self).index().insert(key@, data@)
                    &&& final(self).log() == old(self).log() + spec_encode(
                        EntryModel::Put { key: key@, data: data@ },
                    )
                },
                Err(e) => {
                    &&& final(self).history() == old(self).history()
                    &&& final(self).index() == old(self).index()
                    &&& final(self).log() == old(self).log()
                    &&& e matches StorageError::Wal(_)
                },
            },
    {
        let entry = WalEntry::Put { key: key.clone(), data: data.clone() };
        proof {
            assert(entry@ =~= (EntryModel::Put { key: key@, data: data@ }));
        }
        let msg = WalMessage::Write(entry);
        match self.wal.process(&msg) {
            Ok(()) => {
                self.db.insert(key, data);
                proof {
                    let m = EntryModel::Put { key: key@, data: data@ };
                    let h = old(self).history();
                    self.history@ = h.push(m);
                    lemma_encode_all_push(h, m);
                    assert(h.push(m).drop_last() =~= h);
                    assert forall|i: int| 0 <= i < h.push(m).len() implies crate::encoder::model_fits(
                        #[trigger] h.push(m)[i],
                    ) by {
                        if i < h.len() {
                            assert(h.push(m)[i] == h[i]);
                        }
                    }
                    assert(self.index() =~= apply_log(h.push(m)));
                }
                Ok(())
            },
            Err(e) => Err(StorageError::Wal(e)),
        }
    }

    /// Logs a `Delete` record and, only once the log has acknowledged
    /// it, removes from the index, handing back what was removed. On a
    /// failed acknowledgment nothing changes and the error surfaces.
    pub fn delete(&mut self, key: &str) -> (r: Result<Option<Vec<u8>>, StorageError>)
        requires
            old(self).inv(),
        ensures
            final(self).inv(),
            final(self).wal_running() == old(self).wal_running(),
            final(self).reliable() == old(self).reliable(),
            old(self).wal_running() && old(self).reliable() ==> r is Ok,
            match r {
                Ok(prev) => {
                    &&& old(self).wal_running()
                    &&& final(self).history() == old(self).history().push(
                        EntryModel::Delete { key: key@ },
                    )
                    &&& final(self).index() == old(self).index().remove(key@)
                    &&& final(self).log() == old(self).log() + spec_encode(
                        EntryModel::Delete { key: key@ },
                    )
                    &&& match prev {
                        Some(v) => old(self).index().contains_key(key@) && v@ == old(self).index()[key@],
                        None => !old(self).index().contains_key(key@),
                    }
                },
                Err(e) => {
                    &&& final(self).history() == old(self).history()
                    &&& final(self).index() == old(self).index()
                    &&& final(self).log() == old(self).log()
                    &&& e matches StorageError::Wal(_)
                },
            },
    {
        let entry = WalEntry::Delete { key: key.to_owned() };
        let msg = WalMessage::Write(entry);
        match self.wal.process(&msg) {
            Ok(()) => {
                let prev = match self.db.get(key) {
                    Some(v) => Some(v.clone()),
                    None => None,
                };
                self.db.remove(key);
                proof {
                    let m = EntryModel::Delete { key: key@ };
                    let h = old(self).history();
                    self.history@ = h.push(m);
                    lemma_encode_all_push(h, m);
                    assert(h.push(m).drop_last() =~= h);
                    assert forall|i: int| 0 <= i < h.push(m).len() implies crate::encoder::model_fits(
                        #[trigger] h.push(m)[i],
                    ) by {
                        if i < h.len() {
                            assert(h.push(m)[i] == h[i]);
                        }
                    }
                    assert(self.index() =~= apply_log(h.push(m)));
                }
                Ok(prev)
            },
            Err(e) => Err(StorageError::Wal(e)),
        }
    }

    /// Reads straight from the index. This never touches the
    /// write-ahead path, so it reflects exactly the already-acknowledged
    /// writes and nothing in flight.
    pub fn get(&self, key: &str) -> (r: Result<Option<Vec<u8>>, StorageError>)
        ensures
            match r {
                Ok(Some(v)) => self.index().contains_key(key@) && v@ == self.index()[key@],
                Ok(None) => !self.index().contains_key(key@),
                Err(_) => false,
            },
    {
        match self.db.get(key) {
            Some(v) => Ok(Some(v.clone())),
            None => Ok(None),
        }
    }

    /// Whether the index holds no entry at all.
    pub fn is_empty(&self) -> (r: bool)
        ensures
            r == self.index().dom().is_empty(),
    {
        proof {
            assert(self.index().dom() =~= self.db@.dom());
        }
        self.db.is_empty()
    }

    /// The write-ahead log's actor, for reading the log back out.
    pub fn wal(&self) -> (r: &WalActor<W>)
        ensures
            r.contents() == self.log(),
            r.synced_len() == self.synced_len(),
            r.running() == self.wal_running(),
            r.reliable() == self.reliable(),
    {
        &self.wal
    }

    /// Shuts the log down: flushes, forces stable storage, and stops
    /// the actor. Index, history and log bytes are untouched; a
    /// successful acknowledgment means every logged byte is durable.
    /// Asking again after the actor has stopped surfaces the
    /// channel-closed error rather than being a silent no-op.
    pub fn shutdown(&mut self) -> (r: Result<(), StorageError>)
        requires
            old(self).inv(),
        ensures
            final(self).inv(),
            final(self).history() == old(self).history(),
            final(self).index() == old(self).index(),
            final(self).log() == old(self).log(),
            final(self).reliable() == old(self).reliable(),
            !final(self).wal_running(),
            old(self).wal_running() && old(self).reliable() ==> r is Ok,
            r is Ok ==> old(self).wal_running() && final(self).synced_len() == final(self).log().len(),
            !old(self).wal_running() ==> r == Err::<(), StorageError>(
                StorageError::Wal(crate::error::WalError::SendClosed),
            ),
    {
        let msg = WalMessage::Shutdown;
        match self.wal.process(&msg) {
            Ok(()) => Ok(()),
            Err(e) => Err(StorageError::Wal(e)),
        }
    }

    /// Replaying the log reconstructs exactly the index: decoding the
    /// logged bytes yields the acknowledged records, in order, and
    /// applying them to an empty map gives the index's current state.
    /// In particular, after a successful `set` the replayed index holds
    /// that key with that value.
    pub proof fn lemma_replay_reconstructs_index(&self)
        requires
            self.inv(),
        ensures
            spec_records(self.log()) == Some(self.history()),
            apply_log(self.history()) == self.index(),
    {
        lemma_records_round_trip(self.history());
    }
}

} // verus!
