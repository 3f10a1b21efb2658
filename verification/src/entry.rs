//! The mutation record written to the log, and its mathematical model.

use vstd::prelude::*;

verus! {

/// A single mutation recorded in the write-ahead log.
///
/// A record either sets a key to a payload or deletes a key. Records are
/// immutable once constructed; the log imposes no uniqueness on keys
/// (collisions are resolved by the index, not by the log).
#[derive(Debug, PartialEq)]
pub enum WalEntry {
    Put { key: String, data: Vec<u8> },
    Delete { key: String },
}

/// The model of a [`WalEntry`]: keys as character sequences, payloads as
/// byte sequences. All contracts in this crate speak of records through
/// this type.
#[verifier::ext_equal]
pub enum EntryModel {
    Put { key: Seq<char>, data: Seq<u8> },
    Delete { key: Seq<char> },
}

impl View for WalEntry {
    type V = EntryModel;

    open spec fn view(&self) -> EntryModel {
        match self {
            WalEntry::Put { key, data } => EntryModel::Put { key: key@, data: data@ },
            WalEntry::Delete { key } => EntryModel::Delete { key: key@ },
        }
    }
}

/// The models of a sequence of records, in order.
pub open spec fn models_of(entries: Seq<WalEntry>) -> Seq<EntryModel> {
    entries.map_values(|e: WalEntry| e@)
}

} // verus!
