//! Binary snapshot codec: encodes a store's keyspace into the compact
//! binary snapshot format and decodes such a file back into a store. The
//! format is a 9-byte magic, auxiliary metadata fields, per-database
//! sections of records, an end marker, and an 8-byte big-endian CRC-64
//! trailer over everything before it.
use crate::protocol::encoder::push_all;
use crate::store::spec_expired;
use crate::store::SpecEntry;
use crate::store::SpecValue;
use crate::store::Store;
use crate::text::bytes_to_string_lossy;
use crate::text::copy_range;
use crate::text::spec_text;
use vstd::prelude::*;
use vstd::utf8::encode_utf8;

verus! {

/// Marker type that groups the snapshot codec operations.
#[derive(Debug)]
pub struct RDB;

/// Big-endian byte image of a 32-bit value.
pub open spec fn spec_u32_be_bytes(x: u32) -> Seq<u8> {
    seq![
        (x / 0x1000000) as u8,
        ((x / 0x10000) % 0x100) as u8,
        ((x / 0x100) % 0x100) as u8,
        (x % 0x100) as u8,
    ]
}

/// Value of four big-endian bytes.
pub open spec fn spec_u32_from_be_bytes(b0: u8, b1: u8, b2: u8, b3: u8) -> nat {
    (b0 * 0x1000000 + b1 * 0x10000 + b2 * 0x100 + b3) as nat
}

/// The variable-width length encoding: a 2-bit tag in the first byte's top
/// bits selects one of three widths. Values above 32 bits are truncated to
/// their low 32 bits, as the fixed four-byte form can hold no more.
pub open spec fn spec_length_encode(v: nat) -> Seq<u8> {
    if v <= 63 {
        seq![v as u8]
    } else if v <= 16383 {
        seq![(0x40 + v / 0x100) as u8, (v % 0x100) as u8]
    } else {
        seq![0x80u8] + spec_u32_be_bytes((v % 0x1_0000_0000) as u32)
    }
}

/// Reading a length back from the head of `s`: the decoded value and the
/// number of bytes consumed. Tag `0b11` marks a fixed-width special value
/// that the caller must consume itself, so it decodes to `None` here, as
/// does a buffer too short for its tag.
pub open spec fn spec_length_decode(s: Seq<u8>) -> Option<(nat, int)> {
    if s.len() < 1 {
        None
    } else if s[0] / 64 == 0 {
        Some(((s[0] % 64) as nat, 1int))
    } else if s[0] / 64 == 1 {
        if s.len() < 2 {
            None
        } else {
            Some((((s[0] % 64) * 0x100 + s[1]) as nat, 2int))
        }
    } else if s[0] / 64 == 2 {
        if s.len() < 5 {
            None
        } else {
            Some((spec_u32_from_be_bytes(s[1], s[2], s[3], s[4]), 5int))
        }
    } else {
        None
    }
}

impl RDB {
    /// Appends the length encoding of `value` to `buffer`.
    pub fn length_encode_int(value: usize, buffer: &mut Vec<u8>)
        ensures
            final(buffer)@ == old(buffer)@ + spec_length_encode(value as nat),
    {
        if value <= 63 {
            buffer.push(value as u8);
        } else if value <= 16383 {
            let first_byte: u8 = 0x40 + (value / 0x100) as u8;
            let second_byte: u8 = (value % 0x100) as u8;
            buffer.push(first_byte);
            buffer.push(second_byte);
        } else {
            let w: u32 = ((value as u64) % 0x1_0000_0000) as u32;
            buffer.push(0x80);
            buffer.push((w / 0x1000000) as u8);
            buffer.push(((w / 0x10000) % 0x100) as u8);
            buffer.push(((w / 0x100) % 0x100) as u8);
            buffer.push((w % 0x100) as u8);
            assert(buffer@ =~= old(buffer)@ + spec_length_encode(value as nat));
        }
    }

    /// Reads one length encoding from `buffer` at `*pos`, advancing `*pos`
    /// past it. Returns `None`, leaving `*pos` unchanged, when the tag marks
    /// a fixed-width special value or the buffer ends too early.
    pub fn length_decode_int(pos: &mut usize, buffer: &Vec<u8>) -> (r: Option<usize>)
        requires
            *old(pos) <= buffer@.len(),
        ensures
            match spec_length_decode(buffer@.skip(*old(pos) as int)) {
                Some((v, consumed)) => {
                    &&& r == Some(v as usize)
                    &&& v <= usize::MAX
                    &&& *final(pos) == *old(pos) + consumed
                },
                None => r == None::<usize> && *final(pos) == *old(pos),
            },
    {
        let ghost s = buffer@.skip(*pos as int);
        if *pos >= buffer.len() {
            return None;
        }
        let b0 = buffer[*pos];
        let tag = b0 / 64;
        if tag == 0 {
            *pos = *pos + 1;
            Some((b0 % 64) as usize)
        } else if tag == 1 {
            if buffer.len() - *pos < 2 {
                return None;
            }
            let b1 = buffer[*pos + 1];
            *pos = *pos + 2;
            Some(((b0 % 64) as usize) * 0x100 + (b1 as usize))
        } else if tag == 2 {
            if buffer.len() - *pos < 5 {
                return None;
            }
            let b1 = buffer[*pos + 1] as u64;
            let b2 = buffer[*pos + 2] as u64;
            let b3 = buffer[*pos + 3] as u64;
            let b4 = buffer[*pos + 4] as u64;
            let v: u64 = b1 * 0x1000000 + b2 * 0x10000 + b3 * 0x100 + b4;
            *pos = *pos + 5;
            Some(v as usize)
        } else {
            None
        }
    }
}

/// The length codec is lossless across all three widths: decoding an
/// encoded value, from the head of any longer buffer, yields the value
/// back and consumes exactly the encoding. Values above 32 bits do not
/// round-trip, since the widest form keeps only the low 32 bits.
pub proof fn lemma_length_codec_round_trip(v: nat, rest: Seq<u8>)
    requires
        v <= 0xFFFF_FFFF,
    ensures
        spec_length_decode(spec_length_encode(v) + rest) == Some(
            (v, spec_length_encode(v).len() as int),
        ),
{
    let enc = spec_length_encode(v) + rest;
    if v <= 63 {
        assert(enc[0] == v as u8);
    } else if v <= 16383 {
        assert(enc[0] == (0x40 + v / 0x100) as u8);
        assert(enc[1] == (v % 0x100) as u8);
        assert(enc[0] / 64 == 1) by {
            assert(v / 0x100 <= 63);
        }
        assert((enc[0] % 64) == v / 0x100) by {
            assert(v / 0x100 <= 63);
        }
        assert((v / 0x100) * 0x100 + v % 0x100 == v) by {
            vstd::arithmetic::div_mod::lemma_fundamental_div_mod(v as int, 0x100);
        }
    } else {
        let w = (v % 0x1_0000_0000) as u32;
        assert(w == v);
        assert(enc[0] == 0x80u8);
        assert(enc[0] / 64 == 2);
        assert(enc[1] == (w / 0x1000000) as u8);
        assert(enc[2] == ((w / 0x10000) % 0x100) as u8);
        assert(enc[3] == ((w / 0x100) % 0x100) as u8);
        assert(enc[4] == (w % 0x100) as u8);
        lemma_u32_be_bytes_value(w);
    }
}

/// Why a snapshot could not be written or read back.
#[derive(Debug, PartialEq, Eq, Structural)]
pub enum RdbError {
    /// A key or value longer than 255 bytes cannot be written: the record
    /// format holds lengths in one byte.
    EntryTooLong,
    /// The file does not begin with the 9-byte magic.
    BadMagic,
    /// A record or field runs past the end of the file, a length field
    /// cannot be read whole, or the end marker is missing.
    Truncated,
    /// A tag byte that the format does not define.
    UnknownTag,
    /// An expiry is followed by a value type other than the string type.
    UnsupportedValueType,
}

/// The CRC-64 checksum (MS variant) of a byte sequence.
pub uninterp spec fn crc64_ms(bytes: Seq<u8>) -> u64;

/// Relies on crc::Crc::<u64>::checksum with the CRC_64_MS algorithm from
/// the crc catalog: the checksum is a function of the bytes alone.
#[verifier::external_body]
fn crc64_ms_checksum(bytes: &Vec<u8>) -> (r: u64)
    ensures
        r == crc64_ms(bytes@),
{
    crc::Crc::<u64>::new(&crc::CRC_64_MS).checksum(bytes.as_slice())
}

/// Big-endian byte image of a 64-bit value.
pub open spec fn spec_u64_be_bytes(x: u64) -> Seq<u8> {
    vstd::bytes::spec_u64_to_le_bytes(x).reverse()
}

/// Appends the big-endian bytes of `x` to `out`.
fn push_u64_be(x: u64, out: &mut Vec<u8>)
    ensures
        final(out)@ == old(out)@ + spec_u64_be_bytes(x),
{
    let le = vstd::bytes::u64_to_le_bytes(x);
    out.push(le[7]);
    out.push(le[6]);
    out.push(le[5]);
    out.push(le[4]);
    out.push(le[3]);
    out.push(le[2]);
    out.push(le[1]);
    out.push(le[0]);
    proof {
        assert(final(out)@ =~= old(out)@ + spec_u64_be_bytes(x));
    }
}

/// The 9-byte magic `REDIS0011`.
pub open spec fn spec_magic() -> Seq<u8> {
    seq![82u8, 69u8, 68u8, 73u8, 83u8, 48u8, 48u8, 49u8, 49u8]
}

/// The bytes of `redis-ver`.
pub open spec fn spec_aux_ver_key() -> Seq<u8> {
    seq![114u8, 101u8, 100u8, 105u8, 115u8, 45u8, 118u8, 101u8, 114u8]
}

/// The bytes of `7.2.0`.
pub open spec fn spec_aux_ver_val() -> Seq<u8> {
    seq![55u8, 46u8, 50u8, 46u8, 48u8]
}

/// The bytes of `redis-bits`.
pub open spec fn spec_aux_bits_key() -> Seq<u8> {
    seq![114u8, 101u8, 100u8, 105u8, 115u8, 45u8, 98u8, 105u8, 116u8, 115u8]
}

/// The fixed snapshot header: magic, the `redis-ver` auxiliary field, and
/// the `redis-bits` auxiliary field whose value is the special 8-bit
/// encoding of 64.
pub open spec fn spec_header() -> Seq<u8> {
    spec_magic() + seq![0xFAu8] + spec_length_encode(9) + spec_aux_ver_key() + spec_length_encode(5)
        + spec_aux_ver_val() + seq![0xFAu8] + spec_length_encode(10) + spec_aux_bits_key() + seq![
        0xC0u8,
        0x40u8,
    ]
}

/// One record's bytes after any expiry prefix: the string value type byte,
/// then the one-byte-length-prefixed key and value.
pub open spec fn spec_record_tail(key: Seq<char>, data: Seq<char>) -> Seq<u8> {
    seq![0u8, encode_utf8(key).len() as u8] + encode_utf8(key) + seq![encode_utf8(data).len() as u8]
        + encode_utf8(data)
}

/// One record's bytes: an optional expiry prefix of tag `0xFC` and eight
/// little-endian bytes, then the tail.
pub open spec fn spec_record(e: SpecEntry) -> Seq<u8> {
    (match e.expiry {
        Some(t) => seq![0xFCu8] + vstd::bytes::spec_u64_to_le_bytes(t),
        None => Seq::<u8>::empty(),
    }) + spec_record_tail(e.key, e.data)
}

/// The records of the entries not yet expired at `now_ms`, in order;
/// entries already expired are left out of the snapshot.
pub open spec fn spec_live_records(entries: Seq<SpecEntry>, now_ms: u64) -> Seq<u8>
    decreases entries.len(),
{
    if entries.len() == 0 {
        Seq::empty()
    } else {
        spec_live_records(entries.drop_last(), now_ms) + (if spec_expired(
            entries.last().expiry,
            now_ms,
        ) {
            Seq::<u8>::empty()
        } else {
            spec_record(entries.last())
        })
    }
}

/// One database section: the selector with the database index, the resize
/// hint with the entry count and the count of entries carrying an expiry
/// (each held to one byte), then the records.
pub open spec fn spec_db_section(index: int, entries: Seq<SpecEntry>, now_ms: u64) -> Seq<u8> {
    seq![
        0xFEu8,
        (index % 256) as u8,
        0xFBu8,
        (entries.len() % 256) as u8,
        (entries.filter(|e: SpecEntry| e.expiry is Some).len() % 256) as u8,
    ] + spec_live_records(entries, now_ms)
}

/// The database sections, one per store, indexed in order.
pub open spec fn spec_sections(stores: Seq<Seq<SpecEntry>>, now_ms: u64) -> Seq<u8>
    decreases stores.len(),
{
    if stores.len() == 0 {
        Seq::empty()
    } else {
        spec_sections(stores.drop_last(), now_ms) + spec_db_section(
            stores.len() - 1,
            stores.last(),
            now_ms,
        )
    }
}

/// Everything before the checksum trailer: header, sections, end marker.
pub open spec fn spec_rdb_body(stores: Seq<Seq<SpecEntry>>, now_ms: u64) -> Seq<u8> {
    spec_header() + spec_sections(stores, now_ms) + seq![0xFFu8]
}

/// The whole snapshot: the body followed by the big-endian CRC-64 of the
/// body.
pub open spec fn spec_create_rdb(stores: Seq<Seq<SpecEntry>>, now_ms: u64) -> Seq<u8> {
    spec_rdb_body(stores, now_ms) + spec_u64_be_bytes(crc64_ms(spec_rdb_body(stores, now_ms)))
}

/// Whether an entry's key and value both fit the one-byte length fields.
pub open spec fn spec_entry_fits(e: SpecEntry) -> bool {
    encode_utf8(e.key).len() <= 255 && encode_utf8(e.data).len() <= 255
}

/// Whether every entry that would be written, that is every entry not
/// already expired at `now_ms`, fits the one-byte length fields.
pub open spec fn spec_live_entries_fit(stores: Seq<Seq<SpecEntry>>, now_ms: u64) -> bool {
    forall|i: int, j: int|
        0 <= i < stores.len() && 0 <= j < stores[i].len() ==> (spec_expired(
            (#[trigger] stores[i][j]).expiry,
            now_ms,
        ) || spec_entry_fits(stores[i][j]))
}

/// The entry sequences of a list of stores, in order.
pub open spec fn stores_kvs(stores: Seq<&Store>) -> Seq<Seq<SpecEntry>> {
    stores.map(|i: int, st: &Store| st.kvs())
}

/// Appends one record tail — type byte, length-prefixed key, then
/// length-prefixed value — unless the key or value overflows its one-byte
/// length field, in which case nothing is appended.
fn push_record_tail(buffer: &mut Vec<u8>, key: &String, data: &String) -> (ok: bool)
    ensures
        ok == (encode_utf8(key@).len() <= 255 && encode_utf8(data@).len() <= 255),
        ok ==> final(buffer)@ == old(buffer)@ + spec_record_tail(key@, data@),
        !ok ==> final(buffer)@ == old(buffer)@,
{
    let kb = key.as_str().as_bytes();
    let db = data.as_str().as_bytes();
    if kb.len() > 255 || db.len() > 255 {
        return false;
    }
    buffer.push(0);
    buffer.push(kb.len() as u8);
    push_all(buffer, kb);
    buffer.push(db.len() as u8);
    push_all(buffer, db);
    proof {
        assert(final(buffer)@ =~= old(buffer)@ + spec_record_tail(key@, data@));
    }
    true
}

impl RDB {
    /// Encodes the given stores into snapshot bytes, excluding entries
    /// already expired at `now_ms`. Fails, writing nothing, exactly when
    /// some entry it would write has a key or value over 255 bytes.
    #[verifier::rlimit(100)]
    pub fn create_rdb(stores: Option<&Vec<&Store>>, now_ms: u64) -> (r: Result<Vec<u8>, RdbError>)
        ensures
            ({
                let ss = match stores {
                    Some(v) => stores_kvs(v@),
                    None => Seq::<Seq<SpecEntry>>::empty(),
                };
                match r {
                    Ok(bytes) => spec_live_entries_fit(ss, now_ms) && bytes@ == spec_create_rdb(
                        ss,
                        now_ms,
                    ),
                    Err(e) => e == RdbError::EntryTooLong && !spec_live_entries_fit(ss, now_ms),
                }
            }),
    {
        let mut buffer: Vec<u8> = Vec::new();
        // Magic: REDIS0011.
        buffer.push(82);
        buffer.push(69);
        buffer.push(68);
        buffer.push(73);
        buffer.push(83);
        buffer.push(48);
        buffer.push(48);
        buffer.push(49);
        buffer.push(49);
        // Auxiliary field: redis-ver -> 7.2.0.
        buffer.push(0xFA);
        Self::length_encode_int(9, &mut buffer);
        buffer.push(114);
        buffer.push(101);
        buffer.push(100);
        buffer.push(105);
        buffer.push(115);
        buffer.push(45);
        buffer.push(118);
        buffer.push(101);
        buffer.push(114);
        Self::length_encode_int(5, &mut buffer);
        buffer.push(55);
        buffer.push(46);
        buffer.push(50);
        buffer.push(46);
        buffer.push(48);
        // Auxiliary field: redis-bits -> 64, as the special 8-bit encoding.
        buffer.push(0xFA);
        Self::length_encode_int(10, &mut buffer);
        buffer.push(114);
        buffer.push(101);
        buffer.push(100);
        buffer.push(105);
        buffer.push(115);
        buffer.push(45);
        buffer.push(98);
        buffer.push(105);
        buffer.push(116);
        buffer.push(115);
        buffer.push(0xC0);
        buffer.push(0x40);
        proof {
            assert(buffer@ =~= spec_header());
        }
        let ghost ss = match stores {
            Some(v) => stores_kvs(v@),
            None => Seq::<Seq<SpecEntry>>::empty(),
        };
        if let Some(stores_vec) = stores {
            let mut i: usize = 0;
            proof {
                assert(spec_sections(ss.take(0), now_ms) =~= Seq::<u8>::empty());
                assert(buffer@ =~= spec_header() + spec_sections(ss.take(0), now_ms));
            }
            while i < stores_vec.len()
                invariant
                    i <= stores_vec@.len(),
                    stores == Some(stores_vec),
                    ss == stores_kvs(stores_vec@),
                    buffer@ == spec_header() + spec_sections(ss.take(i as int), now_ms),
                    forall|a: int, b: int|
                        0 <= a < i && 0 <= b < ss[a].len() ==> (spec_expired(
                            (#[trigger] ss[a][b]).expiry,
                            now_ms,
                        ) || spec_entry_fits(ss[a][b])),
                decreases stores_vec@.len() - i,
            {
                let st: &Store = stores_vec[i];
                proof {
                    assert(ss[i as int] == st.kvs());
                }
                buffer.push(0xFE);
                buffer.push((i % 256) as u8);
                buffer.push(0xFB);
                let hash_table_size = st.len();
                buffer.push((hash_table_size % 256) as u8);
                let expire_table_size = st.expire_len();
                buffer.push((expire_table_size % 256) as u8);
                let ghost section_head = buffer@;
                let rows = st.iter_for_rdb();
                let mut j: usize = 0;
                proof {
                    assert(spec_live_records(st.kvs().take(0), now_ms) =~= Seq::<u8>::empty());
                    assert(buffer@ =~= section_head + spec_live_records(
                        st.kvs().take(0),
                        now_ms,
                    ));
                }
                while j < rows.len()
                    invariant
                        stores == Some(stores_vec),
                        ss == stores_kvs(stores_vec@),
                        0 <= i < ss.len(),
                        ss[i as int] == st.kvs(),
                        j <= rows@.len(),
                        rows@.len() == st.kvs().len(),
                        forall|k: int|
                            0 <= k < rows@.len() ==> {
                                &&& (#[trigger] rows@[k]).0@ == st.kvs()[k].key
                                &&& rows@[k].1@ == st.kvs()[k].data
                                &&& rows@[k].2 == st.kvs()[k].expiry
                            },
                        buffer@ == section_head + spec_live_records(
                            st.kvs().take(j as int),
                            now_ms,
                        ),
                        forall|b: int|
                            0 <= b < j ==> (spec_expired(
                                (#[trigger] st.kvs()[b]).expiry,
                                now_ms,
                            ) || spec_entry_fits(st.kvs()[b])),
                    decreases rows@.len() - j,
                {
                    let ghost entry = st.kvs()[j as int];
                    let ghost before = buffer@;
                    proof {
                        assert(st.kvs().take(j + 1).drop_last() =~= st.kvs().take(j as int));
                        assert(st.kvs().take(j + 1).last() == entry);
                    }
                    let written: bool;
                    match rows[j].2 {
                        Some(t) => {
                            if t <= now_ms {
                                // Expired at write time: the record is left
                                // out of the snapshot.
                                written = true;
                                proof {
                                    assert(buffer@ =~= section_head + spec_live_records(
                                        st.kvs().take(j + 1),
                                        now_ms,
                                    ));
                                }
                            } else {
                                buffer.push(0xFC);
                                let le = vstd::bytes::u64_to_le_bytes(t);
                                push_all(&mut buffer, le.as_slice());
                                written = push_record_tail(&mut buffer, &rows[j].0, &rows[j].1);
                                proof {
                                    if written {
                                        assert(buffer@ =~= section_head + spec_live_records(
                                            st.kvs().take(j + 1),
                                            now_ms,
                                        ));
                                    }
                                }
                            }
                        },
                        None => {
                            written = push_record_tail(&mut buffer, &rows[j].0, &rows[j].1);
                            proof {
                                if written {
                                    assert(buffer@ =~= section_head + spec_live_records(
                                        st.kvs().take(j + 1),
                                        now_ms,
                                    ));
                                }
                            }
                        },
                    }
                    if !written {
                        proof {
                            let gi = i as int;
                            let gj = j as int;
                            assert(0 <= gi < ss.len() && 0 <= gj < ss[gi].len());
                            assert(!spec_expired(ss[gi][gj].expiry, now_ms) && !spec_entry_fits(
                                ss[gi][gj],
                            ));
                            assert(!spec_live_entries_fit(ss, now_ms));
                        }
                        return Err(RdbError::EntryTooLong);
                    }
                    j = j + 1;
                }
                proof {
                    assert(st.kvs().take(st.kvs().len() as int) =~= st.kvs());
                    assert(ss.take(i + 1).drop_last() =~= ss.take(i as int));
                    assert(ss.take(i + 1).last() == st.kvs());
                    assert(buffer@ =~= spec_header() + spec_sections(ss.take(i + 1), now_ms));
                }
                i = i + 1;
            }
            proof {
                assert(ss.take(ss.len() as int) =~= ss);
            }
        }
        buffer.push(0xFF);
        proof {
            assert(buffer@ =~= spec_rdb_body(ss, now_ms));
        }
        let checksum = crc64_ms_checksum(&buffer);
        push_u64_be(checksum, &mut buffer);
        Ok(buffer)
    }
}

/// Skipping the length-prefixed value of an auxiliary field from position
/// `p`: either a plain length followed by that many bytes, or a
/// fixed-width special value whose selector picks one, two or four bytes.
pub open spec fn spec_skip_aux_value(s: Seq<u8>, p: int) -> Result<int, RdbError> {
    if p < 0 || p >= s.len() {
        Err(RdbError::Truncated)
    } else if s[p] / 64 == 3 {
        let sel = s[p] % 64;
        if sel == 0 {
            if p + 2 <= s.len() {
                Ok(p + 2)
            } else {
                Err(RdbError::Truncated)
            }
        } else if sel == 1 {
            if p + 3 <= s.len() {
                Ok(p + 3)
            } else {
                Err(RdbError::Truncated)
            }
        } else if sel == 2 {
            if p + 5 <= s.len() {
                Ok(p + 5)
            } else {
                Err(RdbError::Truncated)
            }
        } else {
            Err(RdbError::UnknownTag)
        }
    } else {
        match spec_length_decode(s.skip(p)) {
            None => Err(RdbError::Truncated),
            Some((vlen, vconsumed)) => if p + vconsumed + vlen <= s.len() {
                Ok(p + vconsumed + vlen)
            } else {
                Err(RdbError::Truncated)
            },
        }
    }
}

/// Skipping a whole auxiliary field from position `p`: the length-prefixed
/// key, then the value.
pub open spec fn spec_skip_aux(s: Seq<u8>, p: int) -> Result<int, RdbError> {
    if p < 0 || p >= s.len() {
        Err(RdbError::Truncated)
    } else if s[p] / 64 == 3 {
        Err(RdbError::UnknownTag)
    } else {
        match spec_length_decode(s.skip(p)) {
            None => Err(RdbError::Truncated),
            Some((klen, kconsumed)) => if p + kconsumed + klen <= s.len() {
                spec_skip_aux_value(s, p + kconsumed + klen)
            } else {
                Err(RdbError::Truncated)
            },
        }
    }
}

/// Reading a record's key and value from position `p`: each one byte of
/// length, then that many bytes. Yields the key bytes, the value bytes and
/// the position after the value.
pub open spec fn spec_read_kv(s: Seq<u8>, p: int) -> Result<(Seq<u8>, Seq<u8>, int), RdbError> {
    if p < 0 || p >= s.len() {
        Err(RdbError::Truncated)
    } else {
        let klen = s[p] as int;
        let kstart = p + 1;
        if kstart + klen > s.len() {
            Err(RdbError::Truncated)
        } else {
            let vp = kstart + klen;
            if vp >= s.len() {
                Err(RdbError::Truncated)
            } else {
                let vlen = s[vp] as int;
                let vstart = vp + 1;
                if vstart + vlen > s.len() {
                    Err(RdbError::Truncated)
                } else {
                    Ok((s.subrange(kstart, kstart + klen), s.subrange(vstart, vstart + vlen), vstart
                        + vlen))
                }
            }
        }
    }
}

/// Reading every record from position `pos` to the end marker, folding the
/// records into `acc` in file order, later records overwriting earlier
/// ones. Running off the end without an end marker, or any field running
/// past the end, is a truncation error; a tag the format does not define
/// is an unknown-tag error; a record whose value type byte is not the
/// string type is an unsupported-value-type error.
pub open spec fn spec_read_entries(
    s: Seq<u8>,
    pos: int,
    acc: Map<Seq<char>, SpecValue>,
) -> Result<Map<Seq<char>, SpecValue>, RdbError>
    decreases s.len() - pos,
{
    if pos < 0 || pos >= s.len() {
        Err(RdbError::Truncated)
    } else if s[pos] == 0xFF {
        Ok(acc)
    } else if s[pos] == 0xFA {
        match spec_skip_aux(s, pos + 1) {
            Err(e) => Err(e),
            Ok(p2) => if pos < p2 <= s.len() {
                spec_read_entries(s, p2, acc)
            } else {
                Err(RdbError::Truncated)
            },
        }
    } else if s[pos] == 0xFB {
        if pos + 3 <= s.len() {
            spec_read_entries(s, pos + 3, acc)
        } else {
            Err(RdbError::Truncated)
        }
    } else if s[pos] == 0xFE {
        if pos + 2 <= s.len() {
            spec_read_entries(s, pos + 2, acc)
        } else {
            Err(RdbError::Truncated)
        }
    } else if s[pos] == 0xFC {
        let p = pos + 1;
        if s.len() - p < 8 {
            Err(RdbError::Truncated)
        } else {
            let expiry = vstd::bytes::spec_u64_from_le_bytes(s.subrange(p, p + 8));
            let tp = p + 8;
            if tp >= s.len() {
                Err(RdbError::Truncated)
            } else if s[tp] != 0 {
                Err(RdbError::UnsupportedValueType)
            } else {
                match spec_read_kv(s, tp + 1) {
                    Err(e) => Err(e),
                    Ok((key, data, np)) => if pos < np <= s.len() {
                        spec_read_entries(
                            s,
                            np,
                            acc.insert(
                                spec_text(key),
                                SpecValue { data: spec_text(data), expiry: Some(expiry) },
                            ),
                        )
                    } else {
                        Err(RdbError::Truncated)
                    },
                }
            }
        }
    } else if s[pos] == 0x00 {
        match spec_read_kv(s, pos + 1) {
            Err(e) => Err(e),
            Ok((key, data, np)) => if pos < np <= s.len() {
                spec_read_entries(
                    s,
                    np,
                    acc.insert(spec_text(key), SpecValue { data: spec_text(data), expiry: None }),
                )
            } else {
                Err(RdbError::Truncated)
            },
        }
    } else {
        Err(RdbError::UnknownTag)
    }
}

/// What decoding a snapshot yields: the map of its records, or the first
/// error. Entries are inserted even if already expired; expiry enforcement
/// happens at lookup, not at load.
pub open spec fn spec_read_rdb(s: Seq<u8>) -> Result<Map<Seq<char>, SpecValue>, RdbError> {
    if s.len() < 9 || s.take(9) != spec_magic() {
        Err(RdbError::BadMagic)
    } else {
        spec_read_entries(s, 9, Map::empty())
    }
}

/// Skips one auxiliary field, leaving `*pos` after its value.
fn skip_aux(bytes: &Vec<u8>, pos: &mut usize) -> (r: Result<(), RdbError>)
    requires
        *old(pos) <= bytes@.len(),
    ensures
        match spec_skip_aux(bytes@, *old(pos) as int) {
            Ok(p2) => r is Ok && *final(pos) == p2 && *old(pos) < p2 <= bytes@.len(),
            Err(e) => r == Err::<(), RdbError>(e),
        },
{
    if *pos >= bytes.len() {
        return Err(RdbError::Truncated);
    }
    if bytes[*pos] / 64 == 3 {
        return Err(RdbError::UnknownTag);
    }
    let klen = match RDB::length_decode_int(pos, bytes) {
        Some(n) => n,
        None => {
            return Err(RdbError::Truncated);
        },
    };
    if bytes.len() - *pos < klen {
        return Err(RdbError::Truncated);
    }
    *pos = *pos + klen;
    if *pos >= bytes.len() {
        return Err(RdbError::Truncated);
    }
    let b = bytes[*pos];
    if b / 64 == 3 {
        let sel = b % 64;
        let width: usize = if sel == 0 {
            2
        } else if sel == 1 {
            3
        } else if sel == 2 {
            5
        } else {
            return Err(RdbError::UnknownTag);
        };
        if bytes.len() - *pos < width {
            return Err(RdbError::Truncated);
        }
        *pos = *pos + width;
        Ok(())
    } else {
        let vlen = match RDB::length_decode_int(pos, bytes) {
            Some(n) => n,
            None => {
                return Err(RdbError::Truncated);
            },
        };
        if bytes.len() - *pos < vlen {
            return Err(RdbError::Truncated);
        }
        *pos = *pos + vlen;
        Ok(())
    }
}

/// Reads a record's key and value — each one byte of length, then that
/// many bytes — leaving `*pos` after the value. The texts are decoded
/// permissively.
fn read_kv(bytes: &Vec<u8>, pos: &mut usize) -> (r: Result<(String, String), RdbError>)
    requires
        *old(pos) <= bytes@.len(),
    ensures
        match spec_read_kv(bytes@, *old(pos) as int) {
            Ok((kb, db, np)) => {
                &&& r is Ok
                &&& r.unwrap().0@ == spec_text(kb)
                &&& r.unwrap().1@ == spec_text(db)
                &&& *final(pos) == np
                &&& *old(pos) < np <= bytes@.len()
            },
            Err(e) => r == Err::<(String, String), RdbError>(e),
        },
{
    if *pos >= bytes.len() {
        return Err(RdbError::Truncated);
    }
    let klen = bytes[*pos] as usize;
    let kstart = *pos + 1;
    if bytes.len() - kstart < klen {
        return Err(RdbError::Truncated);
    }
    let key_bytes = copy_range(bytes, kstart, klen);
    let vp = kstart + klen;
    if vp >= bytes.len() {
        return Err(RdbError::Truncated);
    }
    let vlen = bytes[vp] as usize;
    let vstart = vp + 1;
    if bytes.len() - vstart < vlen {
        return Err(RdbError::Truncated);
    }
    let val_bytes = copy_range(bytes, vstart, vlen);
    *pos = vstart + vlen;
    Ok((bytes_to_string_lossy(&key_bytes), bytes_to_string_lossy(&val_bytes)))
}

impl RDB {
    /// Decodes snapshot bytes into a store: validates the magic, skips
    /// auxiliary fields, selectors and resize hints, and inserts every
    /// record, even one already expired — expiry enforcement happens at
    /// the next lookup, not at load time. Corrupt structure is an error,
    /// never a partial load.
    #[verifier::rlimit(100)]
    pub fn read_rdb(bytes: &Vec<u8>) -> (r: Result<Store, RdbError>)
        ensures
            match r {
                Ok(st) => st.inv() && spec_read_rdb(bytes@) == Ok::<
                    Map<Seq<char>, SpecValue>,
                    RdbError,
                >(st@),
                Err(e) => spec_read_rdb(bytes@) == Err::<Map<Seq<char>, SpecValue>, RdbError>(e),
            },
    {
        if bytes.len() < 9 {
            return Err(RdbError::BadMagic);
        }
        if bytes[0] != 82 || bytes[1] != 69 || bytes[2] != 68 || bytes[3] != 73 || bytes[4] != 83
            || bytes[5] != 48 || bytes[6] != 48 || bytes[7] != 49 || bytes[8] != 49 {
            proof {
                if bytes@.take(9) == spec_magic() {
                    assert(forall|i: int|
                        0 <= i < 9 ==> bytes@[i] == #[trigger] bytes@.take(9)[i]);
                }
            }
            return Err(RdbError::BadMagic);
        }
        proof {
            assert(bytes@.take(9) =~= spec_magic());
        }
        let ghost s = bytes@;
        let mut store = Store::new();
        let mut pos: usize = 9;
        loop
            invariant
                9 <= pos <= s.len(),
                s == bytes@,
                s.take(9) == spec_magic(),
                store.inv(),
                spec_read_entries(s, 9, Map::empty()) == spec_read_entries(
                    s,
                    pos as int,
                    store@,
                ),
            decreases s.len() - pos,
        {
            if pos >= bytes.len() {
                return Err(RdbError::Truncated);
            }
            let tag = bytes[pos];
            if tag == 0xFF {
                proof {
                    assert(spec_read_entries(s, pos as int, store@) == Ok::<
                        Map<Seq<char>, SpecValue>,
                        RdbError,
                    >(store@));
                }
                return Ok(store);
            } else if tag == 0xFA {
                pos = pos + 1;
                if let Err(e) = skip_aux(bytes, &mut pos) {
                    return Err(e);
                }
            } else if tag == 0xFB {
                if bytes.len() - pos < 3 {
                    return Err(RdbError::Truncated);
                }
                pos = pos + 3;
            } else if tag == 0xFE {
                if bytes.len() - pos < 2 {
                    return Err(RdbError::Truncated);
                }
                pos = pos + 2;
            } else if tag == 0xFC {
                let p = pos + 1;
                if bytes.len() - p < 8 {
                    return Err(RdbError::Truncated);
                }
                let le = copy_range(bytes, p, 8);
                let expiry = vstd::bytes::u64_from_le_bytes(le.as_slice());
                let tp = p + 8;
                if tp >= bytes.len() {
                    return Err(RdbError::Truncated);
                }
                if bytes[tp] != 0 {
                    return Err(RdbError::UnsupportedValueType);
                }
                let mut kvpos: usize = tp + 1;
                match read_kv(bytes, &mut kvpos) {
                    Ok((key, value)) => {
                        store.insert_absolute(key, value, Some(expiry));
                        pos = kvpos;
                    },
                    Err(e) => {
                        return Err(e);
                    },
                }
            } else if tag == 0x00 {
                let mut kvpos: usize = pos + 1;
                match read_kv(bytes, &mut kvpos) {
                    Ok((key, value)) => {
                        store.insert_absolute(key, value, None);
                        pos = kvpos;
                    },
                    Err(e) => {
                        return Err(e);
                    },
                }
            } else {
                return Err(RdbError::UnknownTag);
            }
        }
    }
}

/// The four big-endian bytes of a 32-bit value recombine to that value.
pub proof fn lemma_u32_be_bytes_value(x: u32)
    ensures
        spec_u32_from_be_bytes(
            (x / 0x1000000) as u8,
            ((x / 0x10000) % 0x100) as u8,
            ((x / 0x100) % 0x100) as u8,
            (x % 0x100) as u8,
        ) == x,
{
    assert(spec_u32_from_be_bytes(
        (x / 0x1000000) as u8,
        ((x / 0x10000) % 0x100) as u8,
        ((x / 0x100) % 0x100) as u8,
        (x % 0x100) as u8,
    ) == x) by (nonlinear_arith);
}

} // verus!
