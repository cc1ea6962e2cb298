//! The wire-protocol decoder: parses one accumulated byte buffer into a
//! typed command. The grammar is an array header `*<count>\r\n` followed by
//! `count` bulk strings, each `$<len>\r\n<len bytes>\r\n`. An incomplete or
//! unparsable frame yields no command; a complete frame of an unknown shape
//! yields `Unknown`. Byte content is decoded permissively: invalid text is
//! replaced, never rejected. A one-element frame is `PING` or `SAVE` in any
//! ASCII case; `SET`, `GET` and `ECHO` match exactly; `CONFIG`, its `GET`
//! subcommand and the `PX` option match in any ASCII case.
use crate::bytebuf::bm_advance;
use crate::bytebuf::bm_byte;
use crate::bytebuf::bm_len;
use crate::bytebuf::bm_view;
use crate::text::ascii_upper;
use crate::text::bytes_to_string_lossy;
use crate::text::spec_text;
use crate::text::parse_u64_digits;
use crate::text::parse_usize_digits;
use crate::text::spec_parse_uint;
use crate::text::spec_upper_bytes;
use bytes::BytesMut;
use vstd::prelude::*;

verus! {

/// A decoded command.
#[derive(Debug)]
pub enum RedisCommand {
    Ping,
    /// Key, value, and the `PX` time-to-live in milliseconds, when given.
    SetValue(String, String, Option<u64>),
    Get(String),
    Echo(String),
    ConfigGet(String),
    Save,
    Unknown,
}

/// A decoded command at the specification level, with its payloads still
/// as the raw bytes they were read from.
pub enum SpecCommand {
    Ping,
    SetValue(Seq<u8>, Seq<u8>, Option<u64>),
    Get(Seq<u8>),
    Echo(Seq<u8>),
    ConfigGet(Seq<u8>),
    Save,
    Unknown,
}

/// Whether the executable command is the given specification command with
/// every payload decoded permissively from its bytes.
pub open spec fn cmd_matches(c: RedisCommand, s: SpecCommand) -> bool {
    match (c, s) {
        (RedisCommand::Ping, SpecCommand::Ping) => true,
        (RedisCommand::Save, SpecCommand::Save) => true,
        (RedisCommand::Unknown, SpecCommand::Unknown) => true,
        (RedisCommand::SetValue(k, v, e), SpecCommand::SetValue(kb, vb, eb)) => k@ == spec_text(kb) && v@
            == spec_text(vb) && e == eb,
        (RedisCommand::Get(k), SpecCommand::Get(kb)) => k@ == spec_text(kb),
        (RedisCommand::Echo(m), SpecCommand::Echo(mb)) => m@ == spec_text(mb),
        (RedisCommand::ConfigGet(p), SpecCommand::ConfigGet(pb)) => p@ == spec_text(pb),
        _ => false,
    }
}

/// Index of the first carriage return in `s`, or `s.len()` if none.
pub open spec fn spec_find_cr(s: Seq<u8>) -> int
    decreases s.len(),
{
    if s.len() == 0 {
        0
    } else if s[0] == 13 {
        0
    } else {
        1 + spec_find_cr(s.skip(1))
    }
}

/// `spec_find_cr` points at the first carriage return.
pub proof fn lemma_find_cr_bounds(s: Seq<u8>)
    ensures
        0 <= spec_find_cr(s) <= s.len(),
        forall|j: int| 0 <= j < spec_find_cr(s) ==> s[j] != 13,
        spec_find_cr(s) < s.len() ==> s[spec_find_cr(s)] == 13,
    decreases s.len(),
{
    if s.len() > 0 && s[0] != 13 {
        lemma_find_cr_bounds(s.skip(1));
        assert forall|j: int| 0 <= j < spec_find_cr(s) implies s[j] != 13 by {
            if j > 0 {
                assert(s.skip(1)[j - 1] == s[j]);
            }
        }
    }
}

/// Any index with no carriage return before it and one (or the end) at it
/// is `spec_find_cr`.
pub proof fn lemma_find_cr_unique(s: Seq<u8>, k: int)
    requires
        0 <= k <= s.len(),
        forall|j: int| 0 <= j < k ==> s[j] != 13,
        k < s.len() ==> s[k] == 13,
    ensures
        spec_find_cr(s) == k,
    decreases s.len(),
{
    if k == 0 {
    } else {
        assert(s[0] != 13);
        lemma_find_cr_unique(s.skip(1), k - 1);
    }
}

/// Reading a decimal count terminated by `\r\n` from the head of `s`: the
/// count, if the digits parse, and the remaining bytes. The scan consumes
/// up to the first carriage return; when at least two bytes follow the
/// scan, those two are consumed as the terminator, whether or not the
/// digits parse.
pub open spec fn spec_read_len(s: Seq<u8>) -> (Option<int>, Seq<u8>) {
    let k = spec_find_cr(s);
    if s.len() - k >= 2 {
        (spec_parse_uint(s.take(k), usize::MAX as int), s.skip(k + 2))
    } else {
        (None, s.skip(k))
    }
}

/// Reading one bulk string `$<len>\r\n<bytes>\r\n` from the head of `s`:
/// the payload bytes, if the frame is complete, and the remaining bytes.
/// On failure the bytes consumed so far stay consumed.
pub open spec fn spec_read_bulk(s: Seq<u8>) -> (Option<Seq<u8>>, Seq<u8>) {
    if s.len() == 0 || s[0] != 36 {
        (None, s)
    } else {
        let r = spec_read_len(s.skip(1));
        match r.0 {
            None => (None, r.1),
            Some(n) => if r.1.len() >= n + 2 {
                (Some(r.1.take(n)), r.1.skip(n + 2))
            } else {
                (None, r.1)
            },
        }
    }
}

/// `PING`, matched in any ASCII case.
pub open spec fn spec_kw_ping() -> Seq<u8> {
    seq![80u8, 73u8, 78u8, 71u8]
}

/// `SET`, matched exactly.
pub open spec fn spec_kw_set() -> Seq<u8> {
    seq![83u8, 69u8, 84u8]
}

/// `GET`: matched exactly as a command, in any ASCII case as the
/// `CONFIG` subcommand.
pub open spec fn spec_kw_get() -> Seq<u8> {
    seq![71u8, 69u8, 84u8]
}

/// `ECHO`, matched exactly.
pub open spec fn spec_kw_echo() -> Seq<u8> {
    seq![69u8, 67u8, 72u8, 79u8]
}

/// `CONFIG`, matched in any ASCII case.
pub open spec fn spec_kw_config() -> Seq<u8> {
    seq![67u8, 79u8, 78u8, 70u8, 73u8, 71u8]
}

/// `PX`, matched in any ASCII case.
pub open spec fn spec_kw_px() -> Seq<u8> {
    seq![80u8, 88u8]
}

/// `SAVE`, matched in any ASCII case.
pub open spec fn spec_kw_save() -> Seq<u8> {
    seq![83u8, 65u8, 86u8, 69u8]
}

/// The `PX` argument: a decimal millisecond count; anything unparsable
/// leaves the command without an expiry.
pub open spec fn spec_px_value(ms: Seq<u8>) -> Option<u64> {
    match spec_parse_uint(ms, u64::MAX as int) {
        Some(v) => Some(v as u64),
        None => None,
    }
}

/// The tail of a `SET` frame after the keyword: key, value, and at five
/// elements a `PX <ms>` pair; a missing key or value makes the whole frame
/// incomplete, while a malformed or missing `PX` pair only drops the
/// expiry.
pub open spec fn spec_decode_set(length: int, t2: Seq<u8>) -> (Option<SpecCommand>, Seq<u8>) {
    let kr = spec_read_bulk(t2);
    match kr.0 {
        None => (None, kr.1),
        Some(key) => {
            let vr = spec_read_bulk(kr.1);
            match vr.0 {
                None => (None, vr.1),
                Some(value) => if length == 5 {
                    let or = spec_read_bulk(vr.1);
                    match or.0 {
                        Some(opt) => if spec_upper_bytes(opt) == spec_kw_px() {
                            let mr = spec_read_bulk(or.1);
                            match mr.0 {
                                Some(ms) => (
                                    Some(SpecCommand::SetValue(key, value, spec_px_value(ms))),
                                    mr.1,
                                ),
                                None => (Some(SpecCommand::SetValue(key, value, None)), mr.1),
                            }
                        } else {
                            (Some(SpecCommand::SetValue(key, value, None)), or.1)
                        },
                        None => (Some(SpecCommand::SetValue(key, value, None)), or.1),
                    }
                } else {
                    (Some(SpecCommand::SetValue(key, value, None)), vr.1)
                },
            }
        },
    }
}

/// The tail of a `CONFIG` frame after the keyword: the `GET` subcommand in
/// any case, then the parameter.
pub open spec fn spec_decode_config(t2: Seq<u8>) -> (Option<SpecCommand>, Seq<u8>) {
    let sr = spec_read_bulk(t2);
    match sr.0 {
        Some(sub) => if spec_upper_bytes(sub) == spec_kw_get() {
            let pr = spec_read_bulk(sr.1);
            match pr.0 {
                Some(param) => (Some(SpecCommand::ConfigGet(param)), pr.1),
                None => (None, pr.1),
            }
        } else {
            (Some(SpecCommand::Unknown), sr.1)
        },
        None => (Some(SpecCommand::Unknown), sr.1),
    }
}

/// A frame body, dispatched on its element count.
pub open spec fn spec_decode_body(length: int, t1: Seq<u8>) -> (Option<SpecCommand>, Seq<u8>) {
    if length == 1 && t1.len() >= 4 {
        let cr = spec_read_bulk(t1);
        match cr.0 {
            Some(cmd) => if spec_upper_bytes(cmd) == spec_kw_ping() {
                (Some(SpecCommand::Ping), cr.1)
            } else if spec_upper_bytes(cmd) == spec_kw_save() {
                (Some(SpecCommand::Save), cr.1)
            } else {
                (Some(SpecCommand::Unknown), cr.1)
            },
            None => (Some(SpecCommand::Unknown), cr.1),
        }
    } else if length >= 3 {
        let cr = spec_read_bulk(t1);
        match cr.0 {
            None => (Some(SpecCommand::Unknown), cr.1),
            Some(cmd) => if cmd == spec_kw_set() {
                spec_decode_set(length, cr.1)
            } else if spec_upper_bytes(cmd) == spec_kw_config() {
                spec_decode_config(cr.1)
            } else {
                (Some(SpecCommand::Unknown), cr.1)
            },
        }
    } else if length == 2 {
        let cr = spec_read_bulk(t1);
        match cr.0 {
            None => (Some(SpecCommand::Unknown), cr.1),
            Some(cmd) => if cmd == spec_kw_get() {
                let kr = spec_read_bulk(cr.1);
                match kr.0 {
                    Some(key) => (Some(SpecCommand::Get(key)), kr.1),
                    None => (None, kr.1),
                }
            } else if cmd == spec_kw_echo() {
                let mr = spec_read_bulk(cr.1);
                match mr.0 {
                    Some(msg) => (Some(SpecCommand::Echo(msg)), mr.1),
                    None => (None, mr.1),
                }
            } else {
                (Some(SpecCommand::Unknown), cr.1)
            },
        }
    } else {
        (Some(SpecCommand::Unknown), t1)
    }
}

/// What decoding a buffer yields and what it leaves in the buffer: no
/// command from an empty buffer or an incomplete frame, `Unknown` from a
/// complete frame of no known shape, the command otherwise.
pub open spec fn spec_decode(s: Seq<u8>) -> (Option<SpecCommand>, Seq<u8>) {
    if s.len() == 0 {
        (None, s)
    } else if s[0] != 42 {
        (Some(SpecCommand::Unknown), s)
    } else {
        let lr = spec_read_len(s.skip(1));
        match lr.0 {
            None => (None, lr.1),
            Some(length) => spec_decode_body(length, lr.1),
        }
    }
}

/// True when `a` spells `PING` in any ASCII case.
fn kw_is_ping_ci(a: &Vec<u8>) -> (r: bool)
    ensures
        r == (spec_upper_bytes(a@) == spec_kw_ping()),
{
    if a.len() != 4 {
        proof {
            assert(spec_upper_bytes(a@).len() == a@.len());
        }
        return false;
    }
    let r = ascii_upper(a[0]) == 80 && ascii_upper(a[1]) == 73 && ascii_upper(a[2]) == 78
        && ascii_upper(a[3]) == 71;
    proof {
        if r {
            assert(spec_upper_bytes(a@) =~= spec_kw_ping());
        } else {
            if spec_upper_bytes(a@) == spec_kw_ping() {
                assert(spec_upper_bytes(a@)[0] == 80 && spec_upper_bytes(a@)[1] == 73
                    && spec_upper_bytes(a@)[2] == 78 && spec_upper_bytes(a@)[3] == 71);
            }
        }
    }
    r
}

/// True when `a` spells `SAVE` in any ASCII case.
fn kw_is_save_ci(a: &Vec<u8>) -> (r: bool)
    ensures
        r == (spec_upper_bytes(a@) == spec_kw_save()),
{
    if a.len() != 4 {
        proof {
            assert(spec_upper_bytes(a@).len() == a@.len());
        }
        return false;
    }
    let r = ascii_upper(a[0]) == 83 && ascii_upper(a[1]) == 65 && ascii_upper(a[2]) == 86
        && ascii_upper(a[3]) == 69;
    proof {
        if r {
            assert(spec_upper_bytes(a@) =~= spec_kw_save());
        } else {
            if spec_upper_bytes(a@) == spec_kw_save() {
                assert(spec_upper_bytes(a@)[0] == 83 && spec_upper_bytes(a@)[1] == 65
                    && spec_upper_bytes(a@)[2] == 86 && spec_upper_bytes(a@)[3] == 69);
            }
        }
    }
    r
}

/// True when `a` is exactly `SET`.
fn kw_is_set(a: &Vec<u8>) -> (r: bool)
    ensures
        r == (a@ == spec_kw_set()),
{
    if a.len() != 3 {
        return false;
    }
    let r = a[0] == 83 && a[1] == 69 && a[2] == 84;
    proof {
        if r {
            assert(a@ =~= spec_kw_set());
        } else {
            if a@ == spec_kw_set() {
                assert(a@[0] == 83 && a@[1] == 69 && a@[2] == 84);
            }
        }
    }
    r
}

/// True when `a` is exactly `GET`.
fn kw_is_get(a: &Vec<u8>) -> (r: bool)
    ensures
        r == (a@ == spec_kw_get()),
{
    if a.len() != 3 {
        return false;
    }
    let r = a[0] == 71 && a[1] == 69 && a[2] == 84;
    proof {
        if r {
            assert(a@ =~= spec_kw_get());
        } else {
            if a@ == spec_kw_get() {
                assert(a@[0] == 71 && a@[1] == 69 && a@[2] == 84);
            }
        }
    }
    r
}

/// True when `a` is exactly `ECHO`.
fn kw_is_echo(a: &Vec<u8>) -> (r: bool)
    ensures
        r == (a@ == spec_kw_echo()),
{
    if a.len() != 4 {
        return false;
    }
    let r = a[0] == 69 && a[1] == 67 && a[2] == 72 && a[3] == 79;
    proof {
        if r {
            assert(a@ =~= spec_kw_echo());
        } else {
            if a@ == spec_kw_echo() {
                assert(a@[0] == 69 && a@[1] == 67 && a@[2] == 72 && a@[3] == 79);
            }
        }
    }
    r
}

/// True when `a` spells `CONFIG` in any ASCII case.
fn kw_is_config_ci(a: &Vec<u8>) -> (r: bool)
    ensures
        r == (spec_upper_bytes(a@) == spec_kw_config()),
{
    if a.len() != 6 {
        proof {
            assert(spec_upper_bytes(a@).len() == a@.len());
        }
        return false;
    }
    let r = ascii_upper(a[0]) == 67 && ascii_upper(a[1]) == 79 && ascii_upper(a[2]) == 78
        && ascii_upper(a[3]) == 70 && ascii_upper(a[4]) == 73 && ascii_upper(a[5]) == 71;
    proof {
        if r {
            assert(spec_upper_bytes(a@) =~= spec_kw_config());
        } else {
            if spec_upper_bytes(a@) == spec_kw_config() {
                assert(spec_upper_bytes(a@)[0] == 67 && spec_upper_bytes(a@)[1] == 79
                    && spec_upper_bytes(a@)[2] == 78 && spec_upper_bytes(a@)[3] == 70
                    && spec_upper_bytes(a@)[4] == 73 && spec_upper_bytes(a@)[5] == 71);
            }
        }
    }
    r
}

/// True when `a` spells `GET` in any ASCII case.
fn kw_is_get_ci(a: &Vec<u8>) -> (r: bool)
    ensures
        r == (spec_upper_bytes(a@) == spec_kw_get()),
{
    if a.len() != 3 {
        proof {
            assert(spec_upper_bytes(a@).len() == a@.len());
        }
        return false;
    }
    let r = ascii_upper(a[0]) == 71 && ascii_upper(a[1]) == 69 && ascii_upper(a[2]) == 84;
    proof {
        if r {
            assert(spec_upper_bytes(a@) =~= spec_kw_get());
        } else {
            if spec_upper_bytes(a@) == spec_kw_get() {
                assert(spec_upper_bytes(a@)[0] == 71 && spec_upper_bytes(a@)[1] == 69
                    && spec_upper_bytes(a@)[2] == 84);
            }
        }
    }
    r
}

/// True when `a` spells `PX` in any ASCII case.
fn kw_is_px_ci(a: &Vec<u8>) -> (r: bool)
    ensures
        r == (spec_upper_bytes(a@) == spec_kw_px()),
{
    if a.len() != 2 {
        proof {
            assert(spec_upper_bytes(a@).len() == a@.len());
        }
        return false;
    }
    let r = ascii_upper(a[0]) == 80 && ascii_upper(a[1]) == 88;
    proof {
        if r {
            assert(spec_upper_bytes(a@) =~= spec_kw_px());
        } else {
            if spec_upper_bytes(a@) == spec_kw_px() {
                assert(spec_upper_bytes(a@)[0] == 80 && spec_upper_bytes(a@)[1] == 88);
            }
        }
    }
    r
}

/// The wire-protocol decoder. It is stateless: each call to `decode`
/// consumes one frame, or whatever prefix of one it could read, from the
/// given buffer.
#[derive(Clone, Copy)]
pub struct RedisDecoder;

impl RedisDecoder {
    pub fn new() -> Self {
        RedisDecoder
    }

    /// Reads a decimal count terminated by `\r\n` from the head of the
    /// buffer: bytes up to the first carriage return, then the two
    /// terminator bytes when present, are consumed either way.
    fn read_resp_array_length(&self, src: &mut BytesMut) -> (r: Option<usize>)
        ensures
            ({
                let lr = spec_read_len(bm_view(*old(src)));
                &&& bm_view(*final(src)) == lr.1
                &&& match lr.0 {
                    Some(v) => r == Some(v as usize),
                    None => r is None,
                }
            }),
    {
        let ghost s = bm_view(*src);
        proof {
            lemma_find_cr_bounds(s);
        }
        let ghost k = spec_find_cr(s);
        let mut length_str: Vec<u8> = Vec::new();
        let ghost mut i: int = 0;
        proof {
            assert(s.skip(0) =~= s);
            assert(s.take(0) =~= Seq::<u8>::empty());
        }
        loop
            invariant
                0 <= i <= s.len(),
                bm_view(*src) == s.skip(i),
                length_str@ == s.take(i),
                forall|j: int| 0 <= j < i ==> s[j] != 13,
            ensures
                0 <= i <= s.len(),
                bm_view(*src) == s.skip(i),
                length_str@ == s.take(i),
                forall|j: int| 0 <= j < i ==> s[j] != 13,
                i == s.len() || s[i] == 13,
            decreases s.len() - i,
        {
            let n = bm_len(src);
            if n == 0 {
                break;
            }
            let b = bm_byte(src, 0);
            if b == 13 {
                break;
            }
            length_str.push(b);
            bm_advance(src, 1);
            proof {
                assert(s.skip(i).skip(1) =~= s.skip(i + 1));
                assert(s.take(i).push(s[i]) =~= s.take(i + 1));
                i = i + 1;
            }
        }
        proof {
            lemma_find_cr_unique(s, i);
        }
        if bm_len(src) >= 2 {
            bm_advance(src, 2);
            proof {
                assert(s.skip(k).skip(2) =~= s.skip(k + 2));
            }
            parse_usize_digits(&length_str)
        } else {
            None
        }
    }

    /// Reads one bulk string `$<len>\r\n<bytes>\r\n` from the head of the
    /// buffer, returning its payload bytes; on an incomplete or malformed
    /// frame the bytes consumed so far stay consumed.
    fn read_bulk_string(&self, src: &mut BytesMut) -> (r: Option<Vec<u8>>)
        ensures
            ({
                let br = spec_read_bulk(bm_view(*old(src)));
                &&& bm_view(*final(src)) == br.1
                &&& match br.0 {
                    Some(bs) => r is Some && r.unwrap()@ == bs,
                    None => r is None,
                }
            }),
    {
        let n = bm_len(src);
        if n == 0 {
            return None;
        }
        let b0 = bm_byte(src, 0);
        if b0 != 36 {
            return None;
        }
        let ghost s = bm_view(*src);
        bm_advance(src, 1);
        let length = match self.read_resp_array_length(src) {
            Some(l) => l,
            None => {
                return None;
            },
        };
        let ghost t1 = bm_view(*src);
        let rem = bm_len(src);
        if rem < 2 || rem - 2 < length {
            return None;
        }
        let mut payload: Vec<u8> = Vec::new();
        let mut j: usize = 0;
        proof {
            assert(t1.take(0) =~= Seq::<u8>::empty());
        }
        while j < length
            invariant
                j <= length,
                length + 2 <= t1.len(),
                bm_view(*src) == t1,
                payload@ == t1.take(j as int),
            decreases length - j,
        {
            let b = bm_byte(src, j);
            payload.push(b);
            proof {
                assert(t1.take(j as int).push(t1[j as int]) =~= t1.take(j + 1));
            }
            j = j + 1;
        }
        bm_advance(src, length + 2);
        Some(payload)
    }

    /// Decodes one command from the buffer. `None` means the buffer held no
    /// complete frame, whether truncated or never completable; a complete
    /// frame of no recognized shape decodes to `Unknown`. Consumed bytes
    /// stay consumed in every outcome.
    pub fn decode(&self, src: &mut BytesMut) -> (r: Option<RedisCommand>)
        ensures
            ({
                let dr = spec_decode(bm_view(*old(src)));
                &&& bm_view(*final(src)) == dr.1
                &&& match dr.0 {
                    Some(sc) => r is Some && cmd_matches(r.unwrap(), sc),
                    None => r is None,
                }
            }),
    {
        let n = bm_len(src);
        if n == 0 {
            return None;
        }
        let b0 = bm_byte(src, 0);
        if b0 != 42 {
            return Some(RedisCommand::Unknown);
        }
        bm_advance(src, 1);
        let length = match self.read_resp_array_length(src) {
            Some(l) => l,
            None => {
                return None;
            },
        };
        if length == 1 && bm_len(src) >= 4 {
            match self.read_bulk_string(src) {
                Some(cmd) => {
                    if kw_is_ping_ci(&cmd) {
                        Some(RedisCommand::Ping)
                    } else if kw_is_save_ci(&cmd) {
                        Some(RedisCommand::Save)
                    } else {
                        Some(RedisCommand::Unknown)
                    }
                },
                None => Some(RedisCommand::Unknown),
            }
        } else if length >= 3 {
            match self.read_bulk_string(src) {
                None => Some(RedisCommand::Unknown),
                Some(cmd) => {
                    if kw_is_set(&cmd) {
                        let key = match self.read_bulk_string(src) {
                            Some(k) => k,
                            None => {
                                return None;
                            },
                        };
                        let value = match self.read_bulk_string(src) {
                            Some(v) => v,
                            None => {
                                return None;
                            },
                        };
                        let mut expiry: Option<u64> = None;
                        if length == 5 {
                            if let Some(opt) = self.read_bulk_string(src) {
                                if kw_is_px_ci(&opt) {
                                    if let Some(ms_bytes) = self.read_bulk_string(src) {
                                        if let Some(ms) = parse_u64_digits(&ms_bytes) {
                                            expiry = Some(ms);
                                        }
                                    }
                                }
                            }
                        }
                        Some(
                            RedisCommand::SetValue(
                                bytes_to_string_lossy(&key),
                                bytes_to_string_lossy(&value),
                                expiry,
                            ),
                        )
                    } else if kw_is_config_ci(&cmd) {
                        match self.read_bulk_string(src) {
                            Some(sub) => {
                                if kw_is_get_ci(&sub) {
                                    let param = match self.read_bulk_string(src) {
                                        Some(p) => p,
                                        None => {
                                            return None;
                                        },
                                    };
                                    Some(RedisCommand::ConfigGet(bytes_to_string_lossy(&param)))
                                } else {
                                    Some(RedisCommand::Unknown)
                                }
                            },
                            None => Some(RedisCommand::Unknown),
                        }
                    } else {
                        Some(RedisCommand::Unknown)
                    }
                },
            }
        } else if length == 2 {
            match self.read_bulk_string(src) {
                None => Some(RedisCommand::Unknown),
                Some(cmd) => {
                    if kw_is_get(&cmd) {
                        let key = match self.read_bulk_string(src) {
                            Some(k) => k,
                            None => {
                                return None;
                            },
                        };
                        Some(RedisCommand::Get(bytes_to_string_lossy(&key)))
                    } else if kw_is_echo(&cmd) {
                        let msg = match self.read_bulk_string(src) {
                            Some(m) => m,
                            None => {
                                return None;
                            },
                        };
                        Some(RedisCommand::Echo(bytes_to_string_lossy(&msg)))
                    } else {
                        Some(RedisCommand::Unknown)
                    }
                },
            }
        } else {
            Some(RedisCommand::Unknown)
        }
    }
}

} // verus!
