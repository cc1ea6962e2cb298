//! Global laws of the snapshot codec: the checksum trailer matches the
//! body, and decoding an encoded store yields exactly the store's entries
//! that were live at encode time, expiry preserved.
use crate::rdb::crc64_ms;
use crate::rdb::spec_create_rdb;
use crate::rdb::spec_db_section;
use crate::rdb::spec_entry_fits;
use crate::rdb::spec_aux_bits_key;
use crate::rdb::spec_aux_ver_key;
use crate::rdb::spec_aux_ver_val;
use crate::rdb::spec_header;
use crate::rdb::spec_length_encode;
use crate::rdb::spec_skip_aux;
use crate::rdb::spec_skip_aux_value;
use crate::rdb::spec_length_decode;
use crate::rdb::spec_live_records;
use crate::rdb::spec_magic;
use crate::rdb::spec_rdb_body;
use crate::rdb::spec_read_entries;
use crate::rdb::spec_read_kv;
use crate::rdb::spec_read_rdb;
use crate::rdb::spec_record;
use crate::rdb::spec_record_tail;
use crate::rdb::spec_sections;
use crate::rdb::spec_u64_be_bytes;
use crate::rdb::RdbError;
use crate::store::lemma_map_of_entries_absent_general;
use crate::store::map_of_entries;
use crate::store::spec_expired;
use crate::store::SpecEntry;
use crate::store::SpecValue;
use crate::text::spec_text;
use vstd::prelude::*;
use vstd::utf8::encode_utf8;

verus! {

/// The entries not yet expired at `now_ms`, in order: exactly the entries
/// the snapshot writes.
pub open spec fn spec_live_entries(es: Seq<SpecEntry>, now_ms: u64) -> Seq<SpecEntry> {
    es.filter(|e: SpecEntry| !spec_expired(e.expiry, now_ms))
}

/// A map restricted to its entries not yet expired at `now_ms`.
pub open spec fn spec_live_map(m: Map<Seq<char>, SpecValue>, now_ms: u64) -> Map<
    Seq<char>,
    SpecValue,
> {
    Map::new(|k: Seq<char>| m.contains_key(k) && !spec_expired(m[k].expiry, now_ms), |k| m[k])
}

/// The checksum law: the snapshot is its body followed by the big-endian
/// CRC-64 of that body, so recomputing the checksum over everything before
/// the trailer always matches the trailer.
pub proof fn lemma_snapshot_checksum_matches(stores: Seq<Seq<SpecEntry>>, now_ms: u64)
    ensures
        ({
            let out = spec_create_rdb(stores, now_ms);
            let body = out.take(out.len() - 8);
            &&& out.len() == spec_rdb_body(stores, now_ms).len() + 8
            &&& body == spec_rdb_body(stores, now_ms)
            &&& out.skip(out.len() - 8) == spec_u64_be_bytes(crc64_ms(body))
        }),
{
    let body0 = spec_rdb_body(stores, now_ms);
    let trailer = spec_u64_be_bytes(crc64_ms(body0));
    let out = spec_create_rdb(stores, now_ms);
    vstd::bytes::lemma_auto_spec_u64_to_from_le_bytes();
    assert(trailer.len() == 8);
    assert(out.take(out.len() - 8) =~= body0);
    assert(out.skip(out.len() - 8) =~= trailer);
}

/// Folding the live entries of `es` into `acc` from the front, as the
/// snapshot reader does when it walks the records in file order.
pub open spec fn spec_load_live(
    acc: Map<Seq<char>, SpecValue>,
    es: Seq<SpecEntry>,
    now_ms: u64,
) -> Map<Seq<char>, SpecValue>
    decreases es.len(),
{
    if es.len() == 0 {
        acc
    } else if spec_expired(es[0].expiry, now_ms) {
        spec_load_live(acc, es.skip(1), now_ms)
    } else {
        spec_load_live(
            acc.insert(es[0].key, SpecValue { data: es[0].data, expiry: es[0].expiry }),
            es.skip(1),
            now_ms,
        )
    }
}

/// The front-recursive fold also unfolds from the back.
proof fn lemma_load_live_back(acc: Map<Seq<char>, SpecValue>, es: Seq<SpecEntry>, now_ms: u64)
    requires
        es.len() > 0,
    ensures
        spec_load_live(acc, es, now_ms) == if spec_expired(es.last().expiry, now_ms) {
            spec_load_live(acc, es.drop_last(), now_ms)
        } else {
            spec_load_live(acc, es.drop_last(), now_ms).insert(
                es.last().key,
                SpecValue { data: es.last().data, expiry: es.last().expiry },
            )
        },
    decreases es.len(),
{
    if es.len() == 1 {
        assert(es.skip(1) =~= Seq::<SpecEntry>::empty());
        assert(es.drop_last() =~= Seq::<SpecEntry>::empty());
        assert(es.last() == es[0]);
        if spec_expired(es[0].expiry, now_ms) {
            assert(spec_load_live(acc, es.skip(1), now_ms) == acc);
            assert(spec_load_live(acc, es.drop_last(), now_ms) == acc);
        } else {
            let acc2 = acc.insert(es[0].key, SpecValue { data: es[0].data, expiry: es[0].expiry });
            assert(spec_load_live(acc2, es.skip(1), now_ms) == acc2);
            assert(spec_load_live(acc, es.drop_last(), now_ms) == acc);
            assert(spec_load_live(acc, es, now_ms) == acc2);
        }
    } else {
        let tail = es.skip(1);
        let front = es.drop_last();
        assert(tail.last() == es.last());
        assert(tail.drop_last() =~= front.skip(1));
        assert(front[0] == es[0]);
        assert(front.len() > 0);
        if spec_expired(es[0].expiry, now_ms) {
            lemma_load_live_back(acc, tail, now_ms);
            assert(spec_load_live(acc, es, now_ms) == spec_load_live(acc, tail, now_ms));
            assert(spec_load_live(acc, front, now_ms) == spec_load_live(
                acc,
                front.skip(1),
                now_ms,
            ));
        } else {
            let acc2 = acc.insert(es[0].key, SpecValue { data: es[0].data, expiry: es[0].expiry });
            lemma_load_live_back(acc2, tail, now_ms);
            assert(spec_load_live(acc, es, now_ms) == spec_load_live(acc2, tail, now_ms));
            assert(spec_load_live(acc, front, now_ms) == spec_load_live(
                acc2,
                front.skip(1),
                now_ms,
            ));
        }
    }
}

/// Folding the live entries into the empty map builds exactly the map of
/// the live entries.
proof fn lemma_load_live_is_live_entry_map(es: Seq<SpecEntry>, now_ms: u64)
    ensures
        spec_load_live(Map::empty(), es, now_ms) == map_of_entries(spec_live_entries(es, now_ms)),
    decreases es.len(),
{
    reveal(Seq::filter);
    if es.len() == 0 {
        assert(spec_live_entries(es, now_ms) =~= Seq::<SpecEntry>::empty());
    } else {
        lemma_load_live_is_live_entry_map(es.drop_last(), now_ms);
        lemma_load_live_back(Map::empty(), es, now_ms);
        assert(spec_live_entries(es, now_ms) == spec_live_entries(es.drop_last(), now_ms)
            + (if !spec_expired(es.last().expiry, now_ms) {
            seq![es.last()]
        } else {
            Seq::<SpecEntry>::empty()
        }));
        if !spec_expired(es.last().expiry, now_ms) {
            let live = spec_live_entries(es, now_ms);
            assert(live.drop_last() =~= spec_live_entries(es.drop_last(), now_ms));
            assert(live.last() == es.last());
        } else {
            assert(spec_live_entries(es, now_ms) =~= spec_live_entries(es.drop_last(), now_ms));
        }
    }
}

/// With unique keys, the map of the live entries is the whole map
/// restricted to its live keys.
proof fn lemma_live_entry_map_is_live_map(es: Seq<SpecEntry>, now_ms: u64)
    requires
        forall|a: int, b: int| 0 <= a < b < es.len() ==> (#[trigger] es[a]).key != (#[trigger] es[b]).key,
    ensures
        map_of_entries(spec_live_entries(es, now_ms)) == spec_live_map(
            map_of_entries(es),
            now_ms,
        ),
    decreases es.len(),
{
    reveal(Seq::filter);
    if es.len() == 0 {
        assert(spec_live_entries(es, now_ms) =~= Seq::<SpecEntry>::empty());
        assert(map_of_entries(spec_live_entries(es, now_ms)) =~= spec_live_map(
            map_of_entries(es),
            now_ms,
        ));
    } else {
        let e = es.last();
        let front = es.drop_last();
        lemma_live_entry_map_is_live_map(front, now_ms);
        assert(forall|i: int| 0 <= i < front.len() ==> (#[trigger] front[i]).key != e.key);
        lemma_map_of_entries_absent_general(front, e.key);
        if !spec_expired(e.expiry, now_ms) {
            let live = spec_live_entries(es, now_ms);
            assert(live.drop_last() =~= spec_live_entries(front, now_ms));
            assert(live.last() == e);
            assert(map_of_entries(live) =~= spec_live_map(map_of_entries(es), now_ms));
        } else {
            assert(spec_live_entries(es, now_ms) =~= spec_live_entries(front, now_ms));
            // The expired last entry is in the map of all entries but not
            // in its live restriction, and its key is under no other entry.
            assert(map_of_entries(spec_live_entries(es, now_ms)) =~= spec_live_map(
                map_of_entries(es),
                now_ms,
            ));
        }
    }
}

/// The record bytes of an entry list, read off the front.
proof fn lemma_live_records_front(es: Seq<SpecEntry>, now_ms: u64)
    requires
        es.len() > 0,
    ensures
        spec_live_records(es, now_ms) == (if spec_expired(es[0].expiry, now_ms) {
            Seq::<u8>::empty()
        } else {
            spec_record(es[0])
        }) + spec_live_records(es.skip(1), now_ms),
    decreases es.len(),
{
    if es.len() == 1 {
        assert(es.drop_last() =~= Seq::<SpecEntry>::empty());
        assert(es.skip(1) =~= Seq::<SpecEntry>::empty());
        assert(spec_live_records(es, now_ms) =~= (if spec_expired(es[0].expiry, now_ms) {
            Seq::<u8>::empty()
        } else {
            spec_record(es[0])
        }) + spec_live_records(es.skip(1), now_ms));
    } else {
        let front = es.drop_last();
        lemma_live_records_front(front, now_ms);
        assert(front[0] == es[0]);
        assert(es.skip(1).drop_last() =~= front.skip(1));
        assert(es.skip(1).last() == es.last());
        assert(spec_live_records(es, now_ms) =~= (if spec_expired(es[0].expiry, now_ms) {
            Seq::<u8>::empty()
        } else {
            spec_record(es[0])
        }) + spec_live_records(es.skip(1), now_ms));
    }
}

/// Splitting the bytes of `s` from `p` as a concatenation: the first part
/// sits at `p` as a subrange, the second follows it.
proof fn lemma_concat_at(s: Seq<u8>, p: int, a: Seq<u8>, b: Seq<u8>)
    requires
        0 <= p <= s.len(),
        s.skip(p) == a + b,
    ensures
        s.len() - p == a.len() + b.len(),
        s.subrange(p, p + a.len()) == a,
        s.skip(p + a.len()) == b,
{
    assert(s.skip(p).len() == s.len() - p);
    assert((a + b).len() == a.len() + b.len());
    assert(s.skip(p).len() == (a + b).len());
    assert(s.subrange(p, p + a.len()) =~= a) by {
        assert forall|i: int| 0 <= i < a.len() implies s.subrange(p, p + a.len())[i] == a[i] by {
            assert(s.skip(p)[i] == (a + b)[i]);
            assert(s.subrange(p, p + a.len())[i] == s[p + i]);
            assert(s.skip(p)[i] == s[p + i]);
        }
    }
    assert(s.skip(p + a.len()) =~= b) by {
        assert forall|i: int| 0 <= i < b.len() implies s.skip(p + a.len())[i] == b[i] by {
            assert(s.skip(p)[a.len() + i] == (a + b)[a.len() + i]);
            assert(s.skip(p + a.len())[i] == s[p + a.len() + i]);
            assert(s.skip(p)[a.len() + i] == s[p + (a.len() + i)]);
        }
    }
}

/// Reading one record from position `p` consumes exactly the record's
/// bytes and adds exactly the record's entry.
proof fn lemma_read_one_record(
    s: Seq<u8>,
    p: int,
    e: SpecEntry,
    acc: Map<Seq<char>, SpecValue>,
    rest: Seq<u8>,
)
    requires
        0 <= p <= s.len(),
        s.skip(p) == spec_record(e) + rest,
        spec_entry_fits(e),
        rest.len() > 0,
    ensures
        spec_read_entries(s, p, acc) == spec_read_entries(
            s,
            p + spec_record(e).len(),
            acc.insert(e.key, SpecValue { data: e.data, expiry: e.expiry }),
        ),
{
    let rec = spec_record(e);
    let tail = spec_record_tail(e.key, e.data);
    vstd::bytes::lemma_auto_spec_u64_to_from_le_bytes();
    match e.expiry {
        Some(t) => {
            let le = vstd::bytes::spec_u64_to_le_bytes(t);
            let pre = seq![0xFCu8] + le;
            assert(le.len() == 8);
            assert(rec =~= pre + tail);
            assert(s.skip(p) =~= pre + (tail + rest));
            lemma_concat_at(s, p, pre, tail + rest);
            lemma_concat_at(s, p + 9, tail, rest);
            let hp = s.subrange(p, p + 9);
            assert(s[p] == 0xFC) by {
                assert(hp[0] == s[p + 0]);
                assert(pre[0] == 0xFC);
            }
            assert(s.subrange(p + 1, p + 9) =~= le) by {
                assert forall|i: int| 0 <= i < 8 implies s.subrange(p + 1, p + 9)[i] == le[i] by {
                    assert(s.subrange(p + 1, p + 9)[i] == s[p + 1 + i]);
                    assert(hp[1 + i] == s[p + (1 + i)]);
                    assert(pre[1 + i] == le[i]);
                }
            }
            assert(vstd::bytes::spec_u64_from_le_bytes(s.subrange(p + 1, p + 9)) == t);
            lemma_record_tail_kv(s, p + 9, e);
            assert(s[p + 9] == 0);
            assert(p + rec.len() == p + 9 + tail.len());
            assert(spec_read_entries(s, p, acc) == spec_read_entries(
                s,
                p + rec.len(),
                acc.insert(e.key, SpecValue { data: e.data, expiry: Some(t) }),
            ));
        },
        None => {
            assert(rec =~= tail);
            assert(s.skip(p) =~= tail + rest);
            lemma_concat_at(s, p, tail, rest);
            lemma_record_tail_kv(s, p, e);
            assert(s[p] == 0);
            assert(spec_read_entries(s, p, acc) == spec_read_entries(
                s,
                p + rec.len(),
                acc.insert(e.key, SpecValue { data: e.data, expiry: None }),
            ));
        },
    }
}

/// The key-value part of a record, starting at its type byte, parses to
/// the entry's own key and data.
proof fn lemma_record_tail_kv(s: Seq<u8>, tp: int, e: SpecEntry)
    requires
        0 <= tp,
        tp + spec_record_tail(e.key, e.data).len() <= s.len(),
        spec_entry_fits(e),
        s.subrange(tp, tp + spec_record_tail(e.key, e.data).len()) == spec_record_tail(
            e.key,
            e.data,
        ),
    ensures
        s[tp] == 0,
        spec_read_kv(s, tp + 1) == Ok::<(Seq<u8>, Seq<u8>, int), RdbError>(
            (
                encode_utf8(e.key),
                encode_utf8(e.data),
                tp + spec_record_tail(e.key, e.data).len(),
            ),
        ),
        spec_text(encode_utf8(e.key)) == e.key,
        spec_text(encode_utf8(e.data)) == e.data,
{
    broadcast use vstd::utf8::encode_utf8_valid_utf8, vstd::utf8::encode_utf8_decode_utf8;

    let kb = encode_utf8(e.key);
    let vb = encode_utf8(e.data);
    let klen = kb.len() as int;
    let vlen = vb.len() as int;
    let tail = spec_record_tail(e.key, e.data);
    let a = seq![0u8, kb.len() as u8];
    let h1 = a + kb;
    let h2 = h1 + seq![vb.len() as u8];
    assert(tail =~= h2 + vb);
    assert(tail.len() == 3 + klen + vlen);
    let t = s.subrange(tp, tp + tail.len());
    assert(s[tp] == 0) by {
        assert(t[0] == s[tp + 0]);
        assert(h1[0] == a[0]);
        assert(h2[0] == h1[0]);
        assert(tail[0] == h2[0]);
    }
    assert(s[tp + 1] as int == klen) by {
        assert(t[1] == s[tp + 1]);
        assert(h1[1] == a[1]);
        assert(h2[1] == h1[1]);
        assert(tail[1] == h2[1]);
    }
    assert(s.subrange(tp + 2, tp + 2 + klen) =~= kb) by {
        assert forall|i: int| 0 <= i < klen implies s.subrange(tp + 2, tp + 2 + klen)[i] == kb[i] by {
            assert(s.subrange(tp + 2, tp + 2 + klen)[i] == s[tp + 2 + i]);
            assert(t[2 + i] == s[tp + (2 + i)]);
            assert(h1[2 + i] == kb[i]);
            assert(h2[2 + i] == h1[2 + i]);
            assert(tail[2 + i] == h2[2 + i]);
        }
    }
    assert(s[tp + 2 + klen] as int == vlen) by {
        assert(t[2 + klen] == s[tp + (2 + klen)]);
        assert(h2[2 + klen] == vb.len() as u8);
        assert(tail[2 + klen] == h2[2 + klen]);
    }
    assert(s.subrange(tp + 3 + klen, tp + 3 + klen + vlen) =~= vb) by {
        assert forall|i: int|
            0 <= i < vlen implies s.subrange(tp + 3 + klen, tp + 3 + klen + vlen)[i] == vb[i] by {
            assert(s.subrange(tp + 3 + klen, tp + 3 + klen + vlen)[i] == s[tp + 3 + klen + i]);
            assert(t[3 + klen + i] == s[tp + (3 + klen + i)]);
            assert(tail[3 + klen + i] == vb[i]);
        }
    }
}

/// Reading records from position `p`, where the bytes from `p` are the
/// live records of `es` followed by the end marker, loads exactly the live
/// entries of `es` on top of `acc`.
proof fn lemma_read_records(
    s: Seq<u8>,
    p: int,
    es: Seq<SpecEntry>,
    acc: Map<Seq<char>, SpecValue>,
    now_ms: u64,
    tail: Seq<u8>,
)
    requires
        0 <= p <= s.len(),
        s.skip(p) == spec_live_records(es, now_ms) + seq![0xFFu8] + tail,
        forall|j: int|
            0 <= j < es.len() ==> spec_expired((#[trigger] es[j]).expiry, now_ms)
                || spec_entry_fits(es[j]),
    ensures
        spec_read_entries(s, p, acc) == Ok::<Map<Seq<char>, SpecValue>, RdbError>(
            spec_load_live(acc, es, now_ms),
        ),
    decreases es.len(),
{
    if es.len() == 0 {
        assert(spec_live_records(es, now_ms) =~= Seq::<u8>::empty());
        let one = seq![0xFFu8] + tail;
        assert(s.skip(p) =~= one);
        assert(s.skip(p).len() == s.len() - p);
        assert(one.len() == 1 + tail.len());
        assert(p < s.len());
        assert(s[p] == 0xFF) by {
            assert(s.skip(p)[0] == s[p]);
            assert(one[0] == 0xFF);
        }
        assert(spec_load_live(acc, es, now_ms) == acc);
    } else {
        let e = es[0];
        lemma_live_records_front(es, now_ms);
        if spec_expired(e.expiry, now_ms) {
            assert(s.skip(p) =~= spec_live_records(es.skip(1), now_ms) + seq![0xFFu8] + tail);
            lemma_read_records(s, p, es.skip(1), acc, now_ms, tail);
        } else {
            let rec = spec_record(e);
            let after = spec_live_records(es.skip(1), now_ms) + seq![0xFFu8] + tail;
            assert(s.skip(p) =~= rec + after);
            assert(spec_entry_fits(e));
            assert(after.len() > 0) by {
                assert((spec_live_records(es.skip(1), now_ms) + seq![0xFFu8]).len()
                    == spec_live_records(es.skip(1), now_ms).len() + 1);
            }
            lemma_read_one_record(s, p, e, acc, after);
            lemma_concat_at(s, p, rec, after);
            let p2 = p + rec.len();
            lemma_read_records(
                s,
                p2,
                es.skip(1),
                acc.insert(e.key, SpecValue { data: e.data, expiry: e.expiry }),
                now_ms,
                tail,
            );
        }
    }
}

/// The round-trip law: decoding an encoded snapshot of one entry list
/// yields exactly the entries that were live (not yet expired) at encode
/// time, keys, values and expiries preserved. Keys must be unique, as a
/// store keeps them, and every live entry must fit the one-byte length
/// fields, as encoding demands.
/// Walking the fixed header: the magic opens the file, and reading from
/// just after the magic skips the two auxiliary fields, landing at the
/// first database section.
#[verifier::rlimit(100)]
#[verifier::spinoff_prover]
proof fn lemma_snapshot_prefix(s: Seq<u8>, rest: Seq<u8>, acc: Map<Seq<char>, SpecValue>)
    requires
        s == spec_header() + rest,
        rest.len() > 0,
    ensures
        s.len() == 40 + rest.len(),
        s.take(9) == spec_magic(),
        s.skip(40) == rest,
        spec_read_entries(s, 9, acc) == spec_read_entries(s, 40, acc),
{
    let a1 = seq![0xFAu8];
    let l9 = spec_length_encode(9);
    let vk = spec_aux_ver_key();
    let l5 = spec_length_encode(5);
    let vv = spec_aux_ver_val();
    let a2 = seq![0xFAu8];
    let l10 = spec_length_encode(10);
    let bk = spec_aux_bits_key();
    let sp = seq![0xC0u8, 0x40u8];
    let r6 = sp + rest;
    let r5 = bk + r6;
    let r4 = l10 + r5;
    let r3 = a2 + r4;
    let r2 = vv + r3;
    let r1 = l5 + r2;
    let r0 = vk + r1;
    let rm = l9 + r0;
    let ra = a1 + rm;
    assert(l9 == seq![9u8]);
    assert(l5 == seq![5u8]);
    assert(l10 == seq![10u8]);
    assert(s.skip(0) =~= spec_magic() + ra);
    lemma_concat_at(s, 0, spec_magic(), ra);
    lemma_concat_at(s, 9, a1, rm);
    lemma_concat_at(s, 10, l9, r0);
    lemma_concat_at(s, 11, vk, r1);
    lemma_concat_at(s, 20, l5, r2);
    lemma_concat_at(s, 21, vv, r3);
    lemma_concat_at(s, 26, a2, r4);
    lemma_concat_at(s, 27, l10, r5);
    lemma_concat_at(s, 28, bk, r6);
    lemma_concat_at(s, 38, sp, rest);
    assert(s[9int] == 0xFA) by {
        assert(s.subrange(9, 10)[0] == s[9int]);
    }
    assert(s[10int] == 9) by {
        assert(s.subrange(10, 11)[0] == s[10int]);
    }
    assert(s[20int] == 5) by {
        assert(s.subrange(20, 21)[0] == s[20int]);
    }
    assert(s[26int] == 0xFA) by {
        assert(s.subrange(26, 27)[0] == s[26int]);
    }
    assert(s[27int] == 10) by {
        assert(s.subrange(27, 28)[0] == s[27int]);
    }
    assert(s[38int] == 0xC0) by {
        assert(s.subrange(38, 40)[0] == s[38int]);
        assert(sp[0] == 0xC0);
    }
    assert(spec_skip_aux(s, 10) == Ok::<int, RdbError>(26)) by {
        assert(s.skip(10)[0] == s[10int]);
        assert(spec_length_decode(s.skip(10)) == Some((9nat, 1int)));
        assert(s.skip(20)[0] == s[20int]);
        assert(spec_length_decode(s.skip(20)) == Some((5nat, 1int)));
        assert(spec_skip_aux_value(s, 20) == Ok::<int, RdbError>(26));
    }
    assert(spec_read_entries(s, 9, acc) == spec_read_entries(s, 26, acc));
    assert(spec_skip_aux(s, 27) == Ok::<int, RdbError>(40)) by {
        assert(s.skip(27)[0] == s[27int]);
        assert(spec_length_decode(s.skip(27)) == Some((10nat, 1int)));
        assert(s[38int] / 64 == 3 && s[38int] % 64 == 0);
        assert(spec_skip_aux_value(s, 38) == Ok::<int, RdbError>(40));
    }
    assert(spec_read_entries(s, 26, acc) == spec_read_entries(s, 40, acc));
}

/// Reading a database selector and a resize hint skips their five bytes.
proof fn lemma_skip_selector_hint(
    s: Seq<u8>,
    p: int,
    nb: u8,
    mb: u8,
    rest: Seq<u8>,
    acc: Map<Seq<char>, SpecValue>,
)
    requires
        0 <= p <= s.len(),
        s.skip(p) == seq![0xFEu8, 0u8, 0xFBu8, nb, mb] + rest,
        rest.len() > 0,
    ensures
        s.skip(p + 5) == rest,
        spec_read_entries(s, p, acc) == spec_read_entries(s, p + 5, acc),
{
    let h = seq![0xFEu8, 0u8, 0xFBu8, nb, mb];
    lemma_concat_at(s, p, h, rest);
    assert(s[p] == 0xFE) by {
        assert(s.subrange(p, p + 5)[0] == s[p + 0]);
    }
    assert(s[p + 2] == 0xFB) by {
        assert(s.subrange(p, p + 5)[2] == s[p + 2]);
    }
    assert(spec_read_entries(s, p, acc) == spec_read_entries(s, p + 2, acc));
    assert(spec_read_entries(s, p + 2, acc) == spec_read_entries(s, p + 5, acc));
}

/// The round-trip law: decoding an encoded snapshot of one entry list
/// yields exactly the entries that were live (not yet expired) at encode
/// time, keys, values and expiries preserved. Keys must be unique, as a
/// store keeps them, and every live entry must fit the one-byte length
/// fields, as encoding demands.
#[verifier::rlimit(100)]
#[verifier::spinoff_prover]
pub proof fn lemma_rdb_round_trip(es: Seq<SpecEntry>, now_ms: u64)
    requires
        forall|a: int, b: int| 0 <= a < b < es.len() ==> (#[trigger] es[a]).key != (#[trigger] es[b]).key,
        forall|j: int|
            0 <= j < es.len() ==> spec_expired((#[trigger] es[j]).expiry, now_ms)
                || spec_entry_fits(es[j]),
    ensures
        spec_read_rdb(spec_create_rdb(seq![es], now_ms)) == Ok::<
            Map<Seq<char>, SpecValue>,
            RdbError,
        >(spec_live_map(map_of_entries(es), now_ms)),
{
    let stores = seq![es];
    let body = spec_rdb_body(stores, now_ms);
    let out = spec_create_rdb(stores, now_ms);
    let records = spec_live_records(es, now_ms);
    let trailer = spec_u64_be_bytes(crc64_ms(body));
    let m0 = Map::<Seq<char>, SpecValue>::empty();
    vstd::bytes::lemma_auto_spec_u64_to_from_le_bytes();
    assert(trailer.len() == 8) by {
        assert(vstd::bytes::spec_u64_to_le_bytes(crc64_ms(body)).len() == 8);
    }
    let nb = (es.len() % 256) as u8;
    let mb = (es.filter(|e: SpecEntry| e.expiry is Some).len() % 256) as u8;
    let seq5 = seq![0xFEu8, 0u8, 0xFBu8, nb, mb];
    assert(stores.drop_last() =~= Seq::<Seq<SpecEntry>>::empty());
    assert(stores.last() == es);
    assert(spec_sections(stores.drop_last(), now_ms) == Seq::<u8>::empty());
    assert(spec_sections(stores, now_ms) == Seq::<u8>::empty() + spec_db_section(0, es, now_ms));
    assert(spec_sections(stores, now_ms) =~= seq5 + records);
    let fin = seq![0xFFu8] + trailer;
    let rest_h = seq5 + (records + fin);
    assert(out =~= spec_header() + rest_h);
    lemma_snapshot_prefix(out, rest_h, m0);
    assert(out.take(9) == spec_magic());
    lemma_skip_selector_hint(out, 40, nb, mb, records + fin, m0);
    assert(out.skip(45) =~= records + seq![0xFFu8] + trailer);
    lemma_read_records(out, 45, es, m0, now_ms, trailer);
    lemma_load_live_is_live_entry_map(es, now_ms);
    lemma_live_entry_map_is_live_map(es, now_ms);
    assert(out.len() >= 9);
}

} // verus!
