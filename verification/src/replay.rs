//! Whole-log replay: a log is the concatenation of record encodings, and
//! replaying it recovers exactly the records that were appended, in
//! order — the property the write-ahead discipline rests on.

use vstd::prelude::*;

use crate::encoder::lemma_decode_encode;
use crate::encoder::lemma_encode_len;
use crate::encoder::model_fits;
use crate::encoder::spec_decode;
use crate::encoder::spec_encode;
use crate::encoder::WalCodec;
use crate::entry::models_of;
use crate::entry::EntryModel;
use crate::entry::WalEntry;
use crate::error::WalError;
use vstd::hash_map::StringHashMap;
use vstd::slice::slice_subrange;

verus! {

/// The concatenated encodings of a sequence of records: what a log holds
/// after each record has been appended in order.
pub open spec fn encode_all(ms: Seq<EntryModel>) -> Seq<u8>
    decreases ms.len(),
{
    if ms.len() == 0 {
        Seq::empty()
    } else {
        spec_encode(ms[0]) + encode_all(ms.skip(1))
    }
}

/// Whether every record of a sequence fits the format's length headers.
pub open spec fn all_fit(ms: Seq<EntryModel>) -> bool {
    forall|i: int| 0 <= i < ms.len() ==> model_fits(#[trigger] ms[i])
}

/// The records held by a byte log, or `None` when the log is not a
/// concatenation of records.
pub open spec fn spec_records(b: Seq<u8>) -> Option<Seq<EntryModel>>
    decreases b.len(),
{
    if b.len() == 0 {
        Some(Seq::empty())
    } else {
        match spec_decode(b) {
            Ok(p) => if 1 <= p.1 <= b.len() {
                match spec_records(b.skip(p.1)) {
                    Some(ms) => Some(seq![p.0] + ms),
                    None => None,
                }
            } else {
                None
            },
            Err(_) => None,
        }
    }
}

/// The index that a sequence of records builds when applied in order to
/// an empty map: `Put` inserts or overwrites, `Delete` removes.
pub open spec fn apply_log(ms: Seq<EntryModel>) -> Map<Seq<char>, Seq<u8>>
    decreases ms.len(),
{
    if ms.len() == 0 {
        Map::empty()
    } else {
        match ms.last() {
            EntryModel::Put { key, data } => apply_log(ms.drop_last()).insert(key, data),
            EntryModel::Delete { key } => apply_log(ms.drop_last()).remove(key),
        }
    }
}

/// The byte-level model of an index whose values are still vectors.
pub open spec fn index_view(m: Map<Seq<char>, Vec<u8>>) -> Map<Seq<char>, Seq<u8>> {
    m.map_values(|v: Vec<u8>| v@)
}

/// A decoded record spans at least its nine header bytes and never more
/// than the input, and its model fits the format's length headers.
pub proof fn lemma_decode_bounds(b: Seq<u8>)
    ensures
        spec_decode(b) matches Ok(p) ==> 9 <= p.1 <= b.len() && model_fits(p.0),
{
}

/// Appending one record to a batch appends exactly its encoding.
pub proof fn lemma_encode_all_push(ms: Seq<EntryModel>, m: EntryModel)
    ensures
        encode_all(ms.push(m)) == encode_all(ms) + spec_encode(m),
    decreases ms.len(),
{
    if ms.len() == 0 {
        assert(ms.push(m)[0] == m);
        assert(ms.push(m).skip(1) =~= Seq::<EntryModel>::empty());
        assert(encode_all(Seq::<EntryModel>::empty()) == Seq::<u8>::empty());
        assert(encode_all(ms.push(m)) =~= encode_all(ms) + spec_encode(m));
    } else {
        assert(ms.push(m).skip(1) =~= ms.skip(1).push(m));
        lemma_encode_all_push(ms.skip(1), m);
        assert(ms.push(m)[0] == ms[0]);
        assert(encode_all(ms.push(m)) =~= encode_all(ms) + spec_encode(m));
    }
}

/// Single-writer ordering, at the heart: the concatenation of any
/// records' encodings replays to exactly those records, in order. For a
/// batch appended sequentially by one producer, the durable byte
/// sequence therefore replays to the batch itself.
pub proof fn lemma_records_round_trip(ms: Seq<EntryModel>)
    requires
        all_fit(ms),
    ensures
        spec_records(encode_all(ms)) == Some(ms),
    decreases ms.len(),
{
    if ms.len() == 0 {
        assert(spec_records(encode_all(ms)) == Some(Seq::<EntryModel>::empty()));
        assert(Seq::<EntryModel>::empty() =~= ms);
    } else {
        let b = encode_all(ms);
        let rest = encode_all(ms.skip(1));
        lemma_decode_encode(ms[0], rest);
        lemma_encode_len(ms[0]);
        let n = spec_encode(ms[0]).len() as int;
        assert(b.skip(n) =~= rest);
        assert forall|i: int| 0 <= i < ms.skip(1).len() implies model_fits(
            #[trigger] ms.skip(1)[i],
        ) by {
            assert(ms.skip(1)[i] == ms[i + 1]);
        }
        lemma_records_round_trip(ms.skip(1));
        assert(seq![ms[0]] + ms.skip(1) =~= ms);
    }
}

/// Replay is sound for the format: a log that replays at all is
/// exactly the concatenation of its records' encodings, each of which
/// fits the format's length headers.
pub proof fn lemma_records_sound(b: Seq<u8>)
    ensures
        spec_records(b) matches Some(ms) ==> encode_all(ms) == b && all_fit(ms),
    decreases b.len(),
{
    if b.len() == 0 {
        assert(encode_all(Seq::<EntryModel>::empty()) =~= b);
    } else {
        match spec_decode(b) {
            Ok(p) => {
                if 1 <= p.1 <= b.len() {
                    crate::encoder::lemma_encode_decode(b);
                    lemma_decode_bounds(b);
                    lemma_records_sound(b.skip(p.1));
                    match spec_records(b.skip(p.1)) {
                        Some(rest) => {
                            assert((seq![p.0] + rest)[0] == p.0);
                            assert((seq![p.0] + rest).skip(1) =~= rest);
                            assert(encode_all(seq![p.0] + rest) == spec_encode(p.0) + encode_all(
                                rest,
                            ));
                            assert(spec_encode(p.0) + b.skip(p.1) =~= b);
                            assert forall|i: int|
                                0 <= i < (seq![p.0] + rest).len() implies crate::encoder::model_fits(
                                #[trigger] (seq![p.0] + rest)[i],
                            ) by {
                                if i > 0 {
                                    assert((seq![p.0] + rest)[i] == rest[i - 1]);
                                }
                            }
                        },
                        None => {
                        },
                    }
                }
            },
            Err(_) => {
            },
        }
    }
}

/// Decodes a whole log back into its records. Exactly the logs that are
/// concatenations of records are accepted; on any other byte sequence
/// the typed error of the offending record is returned.
pub fn replay(codec: &WalCodec, bytes: &[u8]) -> (r: Result<Vec<WalEntry>, WalError>)
    ensures
        match spec_records(bytes@) {
            Some(ms) => r matches Ok(v) && models_of(v@) == ms,
            None => r matches Err(w) && w matches WalError::Decode(_),
        },
{
    let mut out: Vec<WalEntry> = Vec::new();
    let mut off: usize = 0;
    proof {
        assert(bytes@.skip(0) =~= bytes@);
        assert(models_of(Seq::<WalEntry>::empty()) =~= Seq::<EntryModel>::empty());
    }
    while off < bytes.len()
        invariant
            off <= bytes@.len(),
            spec_records(bytes@) == match spec_records(bytes@.skip(off as int)) {
                Some(rest) => Some(models_of(out@) + rest),
                None => None::<Seq<EntryModel>>,
            },
        decreases bytes@.len() - off,
    {
        let remaining = slice_subrange(bytes, off, bytes.len());
        proof {
            assert(remaining@ =~= bytes@.skip(off as int));
        }
        match codec.decode_record(remaining) {
            Ok(p) => {
                let (entry, consumed) = p;
                proof {
                    lemma_decode_bounds(bytes@.skip(off as int));
                    assert(bytes@.skip(off as int).skip(consumed as int) =~= bytes@.skip(
                        off + consumed,
                    ));
                    assert(models_of(out@.push(entry)) =~= models_of(out@) + seq![entry@]);
                }
                out.push(entry);
                off = off + consumed;
            },
            Err(w) => {
                return Err(w);
            },
        }
    }
    proof {
        assert(bytes@.skip(off as int) =~= Seq::<u8>::empty());
        assert(models_of(out@) + Seq::<EntryModel>::empty() =~= models_of(out@));
    }
    Ok(out)
}

/// Rebuilds an index from replayed records by applying them in order to
/// an empty map, as the storage engine would have done.
pub fn rebuild_index(entries: &Vec<WalEntry>) -> (index: StringHashMap<Vec<u8>>)
    ensures
        index_view(index@) == apply_log(models_of(entries@)),
{
    let mut index = StringHashMap::<Vec<u8>>::new();
    proof {
        assert(index_view(index@) =~= apply_log(models_of(entries@.take(0))));
    }
    let mut i: usize = 0;
    while i < entries.len()
        invariant
            i <= entries@.len(),
            index_view(index@) == apply_log(models_of(entries@.take(i as int))),
        decreases entries@.len() - i,
    {
        let ghost prev = index@;
        match &entries[i] {
            WalEntry::Put { key, data } => {
                index.insert(key.clone(), data.clone());
                proof {
                    assert(index_view(index@) =~= index_view(prev).insert(key@, data@));
                }
            },
            WalEntry::Delete { key } => {
                index.remove(key.as_str());
                proof {
                    assert(index_view(index@) =~= index_view(prev).remove(key@));
                }
            },
        }
        proof {
            assert(models_of(entries@.take(i + 1)).drop_last() =~= models_of(
                entries@.take(i as int),
            ));
            assert(models_of(entries@.take(i + 1)).last() == entries@[i as int]@);
        }
        i = i + 1;
    }
    proof {
        assert(entries@.take(entries@.len() as int) =~= entries@);
    }
    index
}

} // verus!
