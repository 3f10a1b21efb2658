//! The reversible byte format for WAL records.
//!
//! A record is framed so that its boundary is determinable without any
//! external metadata, which is what makes multi-record replay well-defined:
//! a tag byte names the variant, an eight-byte little-endian header gives
//! the key length in characters, each key character follows as its 32-bit
//! scalar value in four little-endian bytes, and a `Put` record then adds
//! an eight-byte payload length and the payload bytes themselves.
//!
//! `spec_encode` and `spec_decode` fix the format mathematically;
//! `lemma_decode_encode` proves the two inverse, with any suffix after the
//! record left untouched.

use vstd::bytes::*;
use vstd::prelude::*;
use vstd::slice::slice_subrange;
use vstd::slice::slice_to_vec;
use vstd::string::StrSliceExecFns;

use crate::entry::EntryModel;
use crate::entry::WalEntry;
use crate::error::DecodeError;
use crate::error::WalError;

verus! {

broadcast use vstd::utf8::char_is_scalar, vstd::utf8::char_u32_cast;

/// Tag byte of a `Put` record.
pub const TAG_PUT: u8 = 0;

/// Tag byte of a `Delete` record.
pub const TAG_DELETE: u8 = 1;

/// The four little-endian bytes that encode one key character.
pub open spec fn char_bytes(c: char) -> Seq<u8> {
    spec_u32_to_le_bytes(c as u32)
}

/// The bytes of a whole key: four bytes per character, in order.
pub open spec fn key_bytes(key: Seq<char>) -> Seq<u8>
    decreases key.len(),
{
    if key.len() == 0 {
        Seq::empty()
    } else {
        char_bytes(key[0]) + key_bytes(key.skip(1))
    }
}

/// An eight-byte little-endian length header.
pub open spec fn len_bytes(n: nat) -> Seq<u8>
    recommends
        n <= u64::MAX,
{
    spec_u64_to_le_bytes(n as u64)
}

/// Whether a record model is small enough for the format's length
/// headers. Every record constructible in memory satisfies this; only
/// models beyond any machine's reach do not.
pub open spec fn model_fits(e: EntryModel) -> bool {
    match e {
        EntryModel::Put { key, data } => key.len() <= u64::MAX && data.len() <= u64::MAX,
        EntryModel::Delete { key } => key.len() <= u64::MAX,
    }
}

/// The encoding of one record.
pub open spec fn spec_encode(e: EntryModel) -> Seq<u8> {
    match e {
        EntryModel::Put { key, data } => seq![TAG_PUT] + len_bytes(key.len()) + key_bytes(key)
            + len_bytes(data.len()) + data,
        EntryModel::Delete { key } => seq![TAG_DELETE] + len_bytes(key.len()) + key_bytes(key),
    }
}

/// Whether a 32-bit value is a Unicode scalar value, i.e. the code of
/// exactly one `char`.
pub open spec fn is_scalar(v: u32) -> bool {
    vstd::utf8::is_scalar(v)
}

/// The 32-bit value stored little-endian at `off`.
pub open spec fn u32_at(b: Seq<u8>, off: int) -> u32 {
    spec_u32_from_le_bytes(b.subrange(off, off + 4))
}

/// The 64-bit length header stored little-endian at `off`.
pub open spec fn u64_at(b: Seq<u8>, off: int) -> u64 {
    spec_u64_from_le_bytes(b.subrange(off, off + 8))
}

/// Whether every one of the `n` character positions starting at `off`
/// holds a Unicode scalar value.
pub open spec fn key_region_ok(b: Seq<u8>, off: int, n: int) -> bool {
    forall|i: int| 0 <= i < n ==> is_scalar(#[trigger] u32_at(b, off + 4 * i))
}

/// The key read from a region of `n` characters starting at `off`.
pub open spec fn key_at(b: Seq<u8>, off: int, n: int) -> Seq<char> {
    Seq::new(n as nat, |i: int| u32_at(b, off + 4 * i) as char)
}

/// What decoding the front of `b` yields: one record model together with
/// the number of bytes it occupies, or the reason the front is not a
/// record. This function is the format's authority: the executable
/// decoder is proved to return exactly this.
pub open spec fn spec_decode(b: Seq<u8>) -> Result<(EntryModel, int), DecodeError> {
    if b.len() < 1 {
        Err(DecodeError::Truncated)
    } else if b[0] == TAG_PUT {
        if b.len() < 9 {
            Err(DecodeError::Truncated)
        } else {
            let klen = u64_at(b, 1) as int;
            if b.len() < 9 + 4 * klen {
                Err(DecodeError::Truncated)
            } else if !key_region_ok(b, 9, klen) {
                Err(DecodeError::InvalidChar)
            } else {
                let doff = 9 + 4 * klen;
                if b.len() < doff + 8 {
                    Err(DecodeError::Truncated)
                } else {
                    let dlen = u64_at(b, doff) as int;
                    if b.len() < doff + 8 + dlen {
                        Err(DecodeError::Truncated)
                    } else {
                        Ok(
                            (
                                EntryModel::Put {
                                    key: key_at(b, 9, klen),
                                    data: b.subrange(doff + 8, doff + 8 + dlen),
                                },
                                doff + 8 + dlen,
                            ),
                        )
                    }
                }
            }
        }
    } else if b[0] == TAG_DELETE {
        if b.len() < 9 {
            Err(DecodeError::Truncated)
        } else {
            let klen = u64_at(b, 1) as int;
            if b.len() < 9 + 4 * klen {
                Err(DecodeError::Truncated)
            } else if !key_region_ok(b, 9, klen) {
                Err(DecodeError::InvalidChar)
            } else {
                Ok((EntryModel::Delete { key: key_at(b, 9, klen) }, 9 + 4 * klen))
            }
        }
    } else {
        Err(DecodeError::UnknownTag)
    }
}

/// The length of a key's byte region is four bytes per character.
pub proof fn lemma_key_bytes_len(key: Seq<char>)
    ensures
        key_bytes(key).len() == 4 * key.len(),
    decreases key.len(),
{
    lemma_auto_spec_u32_to_from_le_bytes();
    if key.len() > 0 {
        lemma_key_bytes_len(key.skip(1));
    }
}

/// The four bytes at character position `i` of a key region are the
/// encoding of the key's `i`-th character.
pub proof fn lemma_key_bytes_index(key: Seq<char>, i: int)
    requires
        0 <= i < key.len(),
    ensures
        key_bytes(key).subrange(4 * i, 4 * i + 4) == char_bytes(key[i]),
    decreases key.len(),
{
    lemma_auto_spec_u32_to_from_le_bytes();
    lemma_key_bytes_len(key.skip(1));
    if i == 0 {
        assert(key_bytes(key).subrange(0, 4) =~= char_bytes(key[0]));
    } else {
        lemma_key_bytes_index(key.skip(1), i - 1);
        assert(key_bytes(key).subrange(4 * i, 4 * i + 4) =~= key_bytes(key.skip(1)).subrange(
            4 * (i - 1),
            4 * (i - 1) + 4,
        ));
        assert(key.skip(1)[i - 1] == key[i]);
    }
}

/// Appending one character to a key appends exactly its four bytes.
pub proof fn lemma_key_bytes_push(key: Seq<char>, c: char)
    ensures
        key_bytes(key.push(c)) == key_bytes(key) + char_bytes(c),
    decreases key.len(),
{
    lemma_auto_spec_u32_to_from_le_bytes();
    assert(spec_u32_to_le_bytes(c as u32).len() == 4);
    if key.len() == 0 {
        assert(key.push(c)[0] == c);
        assert(key.push(c).skip(1) =~= Seq::<char>::empty());
        assert(key_bytes(Seq::<char>::empty()) == Seq::<u8>::empty());
        assert(key_bytes(key.push(c)) =~= key_bytes(key) + char_bytes(c));
    } else {
        assert(spec_u32_to_le_bytes(key[0] as u32).len() == 4);
        assert(key.push(c).skip(1) =~= key.skip(1).push(c));
        lemma_key_bytes_push(key.skip(1), c);
        assert(key.push(c)[0] == key[0]);
        lemma_key_bytes_len(key.skip(1));
        assert(key_bytes(key.push(c)) =~= key_bytes(key) + char_bytes(c));
    }
}

/// The exact size of a record's encoding.
pub proof fn lemma_encode_len(e: EntryModel)
    ensures
        spec_encode(e).len() == match e {
            EntryModel::Put { key, data } => 17 + 4 * key.len() + data.len(),
            EntryModel::Delete { key } => 9 + 4 * key.len(),
        },
{
    lemma_auto_spec_u64_to_from_le_bytes();
    match e {
        EntryModel::Put { key, data } => lemma_key_bytes_len(key),
        EntryModel::Delete { key } => lemma_key_bytes_len(key),
    }
}

/// Round trip with any suffix: the encoding of a record, followed by
/// anything at all, decodes to exactly that record, consuming exactly the
/// encoding. The suffix makes the framing self-delimiting, which is what
/// multi-record replay rests on.
pub proof fn lemma_decode_encode(e: EntryModel, rest: Seq<u8>)
    requires
        model_fits(e),
    ensures
        spec_decode(spec_encode(e) + rest) == Ok::<(EntryModel, int), DecodeError>(
            (e, spec_encode(e).len() as int),
        ),
{
    lemma_auto_spec_u64_to_from_le_bytes();
    lemma_auto_spec_u32_to_from_le_bytes();
    lemma_encode_len(e);
    let b = spec_encode(e) + rest;
    match e {
        EntryModel::Put { key, data } => {
            let klen = key.len() as int;
            let dlen = data.len() as int;
            lemma_key_bytes_len(key);
            assert(b[0] == TAG_PUT);
            assert(b.subrange(1, 9) =~= len_bytes(key.len()));
            assert(u64_at(b, 1) == key.len() as u64);
            let doff = 9 + 4 * klen;
            assert forall|i: int| 0 <= i < klen implies is_scalar(
                #[trigger] u32_at(b, 9 + 4 * i),
            ) && u32_at(b, 9 + 4 * i) as char == key[i] by {
                lemma_key_bytes_index(key, i);
                assert(b.subrange(9 + 4 * i, 9 + 4 * i + 4) =~= key_bytes(key).subrange(
                    4 * i,
                    4 * i + 4,
                ));
                assert(spec_u32_to_le_bytes(key[i] as u32).len() == 4);
                assert(u32_at(b, 9 + 4 * i) == key[i] as u32);
                vstd::utf8::char_is_scalar(key[i]);
                vstd::utf8::char_u32_cast(key[i], u32_at(b, 9 + 4 * i));
            }
            assert(key_region_ok(b, 9, klen));
            assert(key_at(b, 9, klen) =~= key);
            assert(b.subrange(doff, doff + 8) =~= len_bytes(data.len()));
            assert(u64_at(b, doff) == data.len() as u64);
            assert(b.subrange(doff + 8, doff + 8 + dlen) =~= data);
        },
        EntryModel::Delete { key } => {
            let klen = key.len() as int;
            lemma_key_bytes_len(key);
            assert(b[0] == TAG_DELETE);
            assert(b.subrange(1, 9) =~= len_bytes(key.len()));
            assert(u64_at(b, 1) == key.len() as u64);
            assert forall|i: int| 0 <= i < klen implies is_scalar(
                #[trigger] u32_at(b, 9 + 4 * i),
            ) && u32_at(b, 9 + 4 * i) as char == key[i] by {
                lemma_key_bytes_index(key, i);
                assert(b.subrange(9 + 4 * i, 9 + 4 * i + 4) =~= key_bytes(key).subrange(
                    4 * i,
                    4 * i + 4,
                ));
                assert(spec_u32_to_le_bytes(key[i] as u32).len() == 4);
                assert(u32_at(b, 9 + 4 * i) == key[i] as u32);
                vstd::utf8::char_is_scalar(key[i]);
                vstd::utf8::char_u32_cast(key[i], u32_at(b, 9 + 4 * i));
            }
            assert(key_region_ok(b, 9, klen));
            assert(key_at(b, 9, klen) =~= key);
        },
    }
}

/// A Unicode scalar value, read as a character, carries the same code.
pub proof fn lemma_scalar_char_cast(v: u32)
    requires
        is_scalar(v),
    ensures
        (v as char) as u32 == v,
{
}

/// Round trip: decoding the encoding of any record yields the record
/// back, having consumed every byte.
pub proof fn lemma_round_trip(e: EntryModel)
    requires
        model_fits(e),
    ensures
        spec_decode(spec_encode(e)) == Ok::<(EntryModel, int), DecodeError>(
            (e, spec_encode(e).len() as int),
        ),
{
    lemma_decode_encode(e, Seq::empty());
    assert(spec_encode(e) + Seq::<u8>::empty() =~= spec_encode(e));
}

/// A key region's characters re-encode to exactly the region's bytes.
pub proof fn lemma_key_bytes_of_key_at(b: Seq<u8>, off: int, n: int)
    requires
        0 <= off,
        0 <= n,
        off + 4 * n <= b.len(),
        key_region_ok(b, off, n),
    ensures
        key_bytes(key_at(b, off, n)) == b.subrange(off, off + 4 * n),
    decreases n,
{
    lemma_auto_spec_u32_to_from_le_bytes();
    let key = key_at(b, off, n);
    if n == 0 {
        assert(key_bytes(key) =~= b.subrange(off, off));
    } else {
        assert(is_scalar(u32_at(b, off + 4 * 0)));
        let v = u32_at(b, off);
        assert(v == u32_at(b, off + 4 * 0));
        lemma_scalar_char_cast(v);
        assert(key[0] == v as char);
        assert(char_bytes(key[0]) == spec_u32_to_le_bytes(v));
        assert(b.subrange(off, off + 4).len() == 4);
        assert(spec_u32_to_le_bytes(spec_u32_from_le_bytes(b.subrange(off, off + 4)))
            == b.subrange(off, off + 4));
        assert forall|i: int| 0 <= i < n - 1 implies is_scalar(
            #[trigger] u32_at(b, (off + 4) + 4 * i),
        ) by {
            assert(is_scalar(u32_at(b, off + 4 * (i + 1))));
            assert((off + 4) + 4 * i == off + 4 * (i + 1));
        }
        lemma_key_bytes_of_key_at(b, off + 4, n - 1);
        assert(key.skip(1) =~= key_at(b, off + 4, n - 1));
        assert(key_bytes(key) == char_bytes(key[0]) + key_bytes(key.skip(1)));
        assert(key_bytes(key) =~= b.subrange(off, off + 4 * n));
    }
}

/// Decoding is sound for the format: a successfully decoded record
/// re-encodes to exactly the bytes it consumed.
pub proof fn lemma_encode_decode(b: Seq<u8>)
    ensures
        spec_decode(b) matches Ok(p) ==> spec_encode(p.0) == b.subrange(0, p.1),
{
    lemma_auto_spec_u64_to_from_le_bytes();
    match spec_decode(b) {
        Ok(p) => {
            let klen = u64_at(b, 1) as int;
            let key = key_at(b, 9, klen);
            lemma_key_bytes_of_key_at(b, 9, klen);
            assert(key.len() == klen);
            assert(b.subrange(1, 9).len() == 8);
            assert(len_bytes(key.len()) == spec_u64_to_le_bytes(spec_u64_from_le_bytes(
                b.subrange(1, 9),
            )));
            assert(len_bytes(key.len()) == b.subrange(1, 9));
            if b[0] == TAG_PUT {
                let doff = 9 + 4 * klen;
                let dlen = u64_at(b, doff) as int;
                let data = b.subrange(doff + 8, doff + 8 + dlen);
                assert(b.subrange(doff, doff + 8).len() == 8);
                assert(len_bytes(data.len()) == spec_u64_to_le_bytes(spec_u64_from_le_bytes(
                    b.subrange(doff, doff + 8),
                )));
                assert(len_bytes(data.len()) == b.subrange(doff, doff + 8));
                assert(spec_encode(p.0) =~= b.subrange(0, p.1));
            } else {
                assert(spec_encode(p.0) =~= b.subrange(0, p.1));
            }
        },
        Err(_) => {
        },
    }
}

/// Whether a record's encoding stands at the front of a byte sequence.
pub open spec fn is_record_prefix(m: EntryModel, b: Seq<u8>) -> bool {
    spec_encode(m).len() <= b.len() && b.subrange(0, spec_encode(m).len() as int) == spec_encode(m)
}

/// Robustness, in the terms the record format owes its callers: on an
/// input at whose front no record's encoding stands — empty, truncated,
/// or garbage — decoding rejects with a typed error, never any other
/// outcome.
pub proof fn lemma_decode_no_record_prefix(b: Seq<u8>)
    requires
        forall|m: EntryModel| !(#[trigger] is_record_prefix(m, b)),
    ensures
        spec_decode(b) is Err,
{
    match spec_decode(b) {
        Ok(p) => {
            lemma_encode_decode(b);
            assert(0 <= p.1 <= b.len());
            assert(is_record_prefix(p.0, b));
        },
        Err(_) => {
        },
    }
}

/// Relies on `char::from_u32`: it returns the character with the given
/// code exactly when the code is a Unicode scalar value (below the
/// surrogate range, or above it and at most 0x10FFFF), and `None`
/// otherwise.
pub assume_specification[ char::from_u32 ](v: u32) -> (r: Option<char>)
    ensures
        r is Some <==> is_scalar(v),
        r matches Some(c) ==> c as u32 == v,
;

/// Relies on `String::push`: it appends the given character to the end
/// of the string.
pub assume_specification[ String::push ](s: &mut String, c: char)
    ensures
        final(s)@ == old(s)@.push(c),
;

/// Encodes and decodes WAL records. The byte format is fixed by
/// [`spec_encode`] and [`spec_decode`]; the codec carries no state of its
/// own.
pub struct WalCodec {}

impl WalCodec {
    /// Creates a codec.
    pub fn new() -> (r: Self)
        ensures
            r == (WalCodec {  }),
    {
        WalCodec {  }
    }

    /// Encodes one record into its byte representation. Encoding never
    /// fails: every record that fits in memory fits the format's length
    /// headers.
    pub fn encode(&self, entry: &WalEntry) -> (r: Result<Vec<u8>, WalError>)
        ensures
            r matches Ok(v) && v@ == spec_encode(entry@),
            model_fits(entry@),
    {
        match entry {
            WalEntry::Put { key, data } => {
                let mut out: Vec<u8> = Vec::new();
                out.push(TAG_PUT);
                let klen = key.as_str().unicode_len();
                let mut header = u64_to_le_bytes(klen as u64);
                out.append(&mut header);
                assert(out@ =~= seq![TAG_PUT] + len_bytes(key@.len()));
                let mut i: usize = 0;
                while i < klen
                    invariant
                        i <= klen,
                        klen == key@.len(),
                        out@ == seq![TAG_PUT] + len_bytes(key@.len()) + key_bytes(
                            key@.take(i as int),
                        ),
                    decreases klen - i,
                {
                    let c = key.as_str().get_char(i);
                    let mut cb = u32_to_le_bytes(c as u32);
                    out.append(&mut cb);
                    proof {
                        lemma_key_bytes_push(key@.take(i as int), c);
                        assert(key@.take(i as int).push(c) =~= key@.take(i + 1));
                    }
                    i = i + 1;
                }
                assert(key@.take(klen as int) =~= key@);
                let mut dheader = u64_to_le_bytes(data.len() as u64);
                out.append(&mut dheader);
                out.extend_from_slice(data.as_slice());
                assert(out@ =~= spec_encode(entry@));
                Ok(out)
            },
            WalEntry::Delete { key } => {
                let mut out: Vec<u8> = Vec::new();
                out.push(TAG_DELETE);
                let klen = key.as_str().unicode_len();
                let mut header = u64_to_le_bytes(klen as u64);
                out.append(&mut header);
                assert(out@ =~= seq![TAG_DELETE] + len_bytes(key@.len()));
                let mut i: usize = 0;
                while i < klen
                    invariant
                        i <= klen,
                        klen == key@.len(),
                        out@ == seq![TAG_DELETE] + len_bytes(key@.len()) + key_bytes(
                            key@.take(i as int),
                        ),
                    decreases klen - i,
                {
                    let c = key.as_str().get_char(i);
                    let mut cb = u32_to_le_bytes(c as u32);
                    out.append(&mut cb);
                    proof {
                        lemma_key_bytes_push(key@.take(i as int), c);
                        assert(key@.take(i as int).push(c) =~= key@.take(i + 1));
                    }
                    i = i + 1;
                }
                assert(key@.take(klen as int) =~= key@);
                assert(out@ =~= spec_encode(entry@));
                Ok(out)
            },
        }
    }

    /// Decodes the record at the front of `data` and reports how many
    /// bytes it occupies. On every input that does not start with a
    /// record — empty, truncated, or garbage — it returns the typed error
    /// that [`spec_decode`] assigns, and never panics.
    pub fn decode_record(&self, data: &[u8]) -> (r: Result<(WalEntry, usize), WalError>)
        ensures
            match spec_decode(data@) {
                Ok(p) => r matches Ok(q) && q.0@ == p.0 && q.1 == p.1,
                Err(e) => r matches Err(w) && w == WalError::Decode(e),
            },
    {
        let n = data.len();
        if n < 1 {
            return Err(WalError::Decode(DecodeError::Truncated));
        }
        let tag = data[0];
        if tag != TAG_PUT && tag != TAG_DELETE {
            return Err(WalError::Decode(DecodeError::UnknownTag));
        }
        if n < 9 {
            return Err(WalError::Decode(DecodeError::Truncated));
        }
        let klen64 = u64_from_le_bytes(slice_subrange(data, 1, 9));
        assert(klen64 == u64_at(data@, 1));
        if ((n - 9) as u128) < 4u128 * (klen64 as u128) {
            return Err(WalError::Decode(DecodeError::Truncated));
        }
        assert(klen64 <= usize::MAX as u64);
        let klen = klen64 as usize;
        let mut key = String::new();
        let mut i: usize = 0;
        while i < klen
            invariant
                i <= klen,
                n == data@.len(),
                n >= 9,
                klen as int == u64_at(data@, 1) as int,
                9 + 4 * (klen as int) <= n as int,
                data@[0] == TAG_PUT || data@[0] == TAG_DELETE,
                key@ == key_at(data@, 9, i as int),
                key_region_ok(data@, 9, i as int),
            decreases klen - i,
        {
            let off = 9 + 4 * i;
            let v = u32_from_le_bytes(slice_subrange(data, off, off + 4));
            assert(v == u32_at(data@, 9 + 4 * (i as int)));
            match char::from_u32(v) {
                Some(c) => {
                    key.push(c);
                    proof {
                        vstd::utf8::char_u32_cast(c, v);
                        assert(key@ =~= key_at(data@, 9, i + 1));
                        assert(key_region_ok(data@, 9, i + 1));
                    }
                },
                None => {
                    proof {
                        assert(!key_region_ok(data@, 9, klen as int));
                    }
                    return Err(WalError::Decode(DecodeError::InvalidChar));
                },
            }
            i = i + 1;
        }
        assert(key@ == key_at(data@, 9, klen as int));
        assert(key_region_ok(data@, 9, klen as int));
        if tag == TAG_PUT {
            let doff = 9 + 4 * klen;
            if n - doff < 8 {
                return Err(WalError::Decode(DecodeError::Truncated));
            }
            let dlen64 = u64_from_le_bytes(slice_subrange(data, doff, doff + 8));
            assert(dlen64 == u64_at(data@, doff as int));
            if ((n - doff - 8) as u128) < dlen64 as u128 {
                return Err(WalError::Decode(DecodeError::Truncated));
            }
            assert(dlen64 <= usize::MAX as u64);
            let dlen = dlen64 as usize;
            let payload = slice_to_vec(slice_subrange(data, doff + 8, doff + 8 + dlen));
            Ok((WalEntry::Put { key, data: payload }, doff + 8 + dlen))
        } else {
            Ok((WalEntry::Delete { key }, 9 + 4 * klen))
        }
    }

    /// Decodes one record; bytes after the record are permitted and
    /// ignored, as the record's framing already determines its end.
    pub fn decode(&self, data: &[u8]) -> (r: Result<WalEntry, WalError>)
        ensures
            match spec_decode(data@) {
                Ok(p) => r matches Ok(e) && e@ == p.0,
                Err(e) => r matches Err(w) && w == WalError::Decode(e),
            },
    {
        match self.decode_record(data) {
            Ok(p) => Ok(p.0),
            Err(e) => Err(e),
        }
    }
}

impl Default for WalCodec {
    fn default() -> (r: Self)
        ensures
            r == (WalCodec {  }),
    {
        WalCodec {  }
    }
}

} // verus!
