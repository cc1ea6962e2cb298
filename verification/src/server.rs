//! The connection dispatcher's decisions: what one decoded command does to
//! the store and which reply bytes it appends. Socket reads and writes,
//! the configuration file and the snapshot file live with the caller; the
//! two commands that need them come back as actions for the caller to
//! perform.
use crate::bytebuf::bm_view;
use crate::protocol::decoder::RedisCommand;
use crate::protocol::encoder::spec_array;
use crate::protocol::encoder::spec_bulk_string;
use crate::protocol::encoder::spec_resp_error;
use crate::protocol::encoder::spec_resp_null;
use crate::protocol::encoder::spec_resp_ok;
use crate::protocol::encoder::spec_resp_pong;
use crate::protocol::encoder::RedisEncoder;
use crate::store::spec_expired_hit;
use crate::store::spec_lookup;
use crate::store::SpecValue;
use crate::store::Store;
use crate::text::spec_upper_bytes;
use crate::text::ascii_upper;
use bytes::BytesMut;
use vstd::prelude::*;
use vstd::string::StringSliceAdditionalSpecFns;
use vstd::utf8::encode_utf8;

verus! {

/// What the caller must still do after `execute_command`.
#[derive(Debug)]
pub enum ServerAction {
    /// The reply is already in the buffer.
    Replied,
    /// Resolve the configuration and call `encode_config_reply` with this
    /// parameter.
    NeedConfig(String),
    /// Write a snapshot, then encode `OK` or the generic error.
    NeedSave,
}

/// The absolute expiry stored for a `PX` time-to-live: `now_ms + ttl`,
/// saturating at the largest representable time.
pub open spec fn spec_sat_expiry(ttl_ms: Option<u64>, now_ms: u64) -> Option<u64> {
    match ttl_ms {
        Some(ms) => if now_ms + ms <= u64::MAX {
            Some((now_ms + ms) as u64)
        } else {
            Some(u64::MAX as u64)
        },
        None => None,
    }
}

/// Executes one decoded command against the store at time `now_ms`,
/// appending the reply to `response`: `PING` answers `+PONG\r\n`; `ECHO`
/// its message as a bulk string; `SET` stores the value, with any `PX`
/// time-to-live anchored at `now_ms`, and answers `+OK\r\n`; `GET` answers
/// the live value as a bulk string or the null bulk string, sweeping an
/// expired entry; an unknown or undecodable command answers the generic
/// error. `CONFIG GET` and `SAVE` append nothing and come back as actions,
/// since they need the configuration or the snapshot file.
pub fn execute_command(
    store: &mut Store,
    cmd: Option<RedisCommand>,
    now_ms: u64,
    response: &mut BytesMut,
) -> (r: ServerAction)
    requires
        old(store).inv(),
    ensures
        final(store).inv(),
        ({
            let pre = bm_view(*old(response));
            let post = bm_view(*final(response));
            match cmd {
                Some(RedisCommand::Ping) => r is Replied && post == pre + spec_resp_pong()
                    && final(store)@ == old(store)@,
                Some(RedisCommand::Echo(m)) => r is Replied && post == pre + spec_bulk_string(
                    encode_utf8(m@),
                ) && final(store)@ == old(store)@,
                Some(RedisCommand::SetValue(k, v, ttl)) => r is Replied && post == pre
                    + spec_resp_ok() && final(store)@ == old(store)@.insert(
                    k@,
                    SpecValue { data: v@, expiry: spec_sat_expiry(ttl, now_ms) },
                ),
                Some(RedisCommand::Get(k)) => r is Replied && (match spec_lookup(
                    old(store)@,
                    k@,
                    now_ms,
                ) {
                    Some(v) => post == pre + spec_bulk_string(encode_utf8(v)),
                    None => post == pre + spec_resp_null(),
                }) && final(store)@ == (if spec_expired_hit(old(store)@, k@, now_ms) {
                    old(store)@.remove(k@)
                } else {
                    old(store)@
                }),
                Some(RedisCommand::ConfigGet(p)) => (r matches ServerAction::NeedConfig(q) && q
                    == p) && post == pre && final(store)@ == old(store)@,
                Some(RedisCommand::Save) => r is NeedSave && post == pre && final(store)@ == old(
                    store,
                )@,
                Some(RedisCommand::Unknown) => r is Replied && post == pre + spec_resp_error()
                    && final(store)@ == old(store)@,
                None => r is Replied && post == pre + spec_resp_error() && final(store)@ == old(
                    store,
                )@,
            }
        }),
{
    let encoder = RedisEncoder::new();
    match cmd {
        Some(RedisCommand::SetValue(key, value, ttl)) => {
            let expiry_abs: Option<u64> = match ttl {
                Some(ms) => if ms <= u64::MAX - now_ms {
                    Some(now_ms + ms)
                } else {
                    Some(u64::MAX)
                },
                None => None,
            };
            store.insert_absolute(key, value, expiry_abs);
            encoder.encode_ok(response);
            ServerAction::Replied
        },
        Some(RedisCommand::Get(key)) => {
            match store.get(key.as_str(), now_ms) {
                Some(value) => encoder.encode_bulk_string(response, value.as_str()),
                None => encoder.encode_null(response),
            }
            ServerAction::Replied
        },
        Some(RedisCommand::ConfigGet(item)) => ServerAction::NeedConfig(item),
        Some(RedisCommand::Ping) => {
            encoder.encode_pong(response);
            ServerAction::Replied
        },
        Some(RedisCommand::Echo(message)) => {
            encoder.encode_bulk_string(response, message.as_str());
            ServerAction::Replied
        },
        Some(RedisCommand::Save) => ServerAction::NeedSave,
        Some(RedisCommand::Unknown) => {
            encoder.encode_error(response);
            ServerAction::Replied
        },
        None => {
            encoder.encode_error(response);
            ServerAction::Replied
        },
    }
}

/// The bytes of `DIR`.
pub open spec fn spec_param_dir() -> Seq<u8> {
    seq![68u8, 73u8, 82u8]
}

/// The bytes of `DBFILENAME`.
pub open spec fn spec_param_dbfilename() -> Seq<u8> {
    seq![68u8, 66u8, 70u8, 73u8, 76u8, 69u8, 78u8, 65u8, 77u8, 69u8]
}

/// The reply to `CONFIG GET <param>`: a two-element array of the setting's
/// name and its value when the parameter names a set setting, the null
/// bulk string when the setting is absent or the parameter names no
/// setting. The parameter matches in any ASCII case.
pub open spec fn spec_config_reply(
    param: Seq<u8>,
    dir: Option<Seq<char>>,
    dbfilename: Option<Seq<char>>,
) -> Seq<u8> {
    if spec_upper_bytes(param) == spec_param_dir() {
        match dir {
            Some(d) => spec_array(seq![encode_utf8("dir"@), encode_utf8(d)]),
            None => spec_resp_null(),
        }
    } else if spec_upper_bytes(param) == spec_param_dbfilename() {
        match dbfilename {
            Some(f) => spec_array(seq![encode_utf8("dbfilename"@), encode_utf8(f)]),
            None => spec_resp_null(),
        }
    } else {
        spec_resp_null()
    }
}

/// True when `a` spells `DIR` in any ASCII case.
fn param_is_dir(a: &Vec<u8>) -> (r: bool)
    ensures
        r == (spec_upper_bytes(a@) == spec_param_dir()),
{
    if a.len() != 3 {
        proof {
            assert(spec_upper_bytes(a@).len() == a@.len());
        }
        return false;
    }
    let r = ascii_upper(a[0]) == 68 && ascii_upper(a[1]) == 73 && ascii_upper(a[2]) == 82;
    proof {
        if r {
            assert(spec_upper_bytes(a@) =~= spec_param_dir());
        } else {
            if spec_upper_bytes(a@) == spec_param_dir() {
                assert(spec_upper_bytes(a@)[0] == 68 && spec_upper_bytes(a@)[1] == 73
                    && spec_upper_bytes(a@)[2] == 82);
            }
        }
    }
    r
}

/// True when `a` spells `DBFILENAME` in any ASCII case.
fn param_is_dbfilename(a: &Vec<u8>) -> (r: bool)
    ensures
        r == (spec_upper_bytes(a@) == spec_param_dbfilename()),
{
    if a.len() != 10 {
        proof {
            assert(spec_upper_bytes(a@).len() == a@.len());
        }
        return false;
    }
    let r = ascii_upper(a[0]) == 68 && ascii_upper(a[1]) == 66 && ascii_upper(a[2]) == 70
        && ascii_upper(a[3]) == 73 && ascii_upper(a[4]) == 76 && ascii_upper(a[5]) == 69
        && ascii_upper(a[6]) == 78 && ascii_upper(a[7]) == 65 && ascii_upper(a[8]) == 77
        && ascii_upper(a[9]) == 69;
    proof {
        if r {
            assert(spec_upper_bytes(a@) =~= spec_param_dbfilename());
        } else {
            if spec_upper_bytes(a@) == spec_param_dbfilename() {
                assert(spec_upper_bytes(a@)[0] == 68 && spec_upper_bytes(a@)[1] == 66
                    && spec_upper_bytes(a@)[2] == 70 && spec_upper_bytes(a@)[3] == 73
                    && spec_upper_bytes(a@)[4] == 76 && spec_upper_bytes(a@)[5] == 69
                    && spec_upper_bytes(a@)[6] == 78 && spec_upper_bytes(a@)[7] == 65
                    && spec_upper_bytes(a@)[8] == 77 && spec_upper_bytes(a@)[9] == 69);
            }
        }
    }
    r
}

/// Appends the reply to `CONFIG GET <param>` given the resolved settings.
pub fn encode_config_reply(
    response: &mut BytesMut,
    param: &str,
    dir: Option<String>,
    dbfilename: Option<String>,
)
    ensures
        bm_view(*final(response)) == bm_view(*old(response)) + spec_config_reply(
            param.spec_bytes(),
            match dir {
                Some(d) => Some(d@),
                None => None,
            },
            match dbfilename {
                Some(f) => Some(f@),
                None => None,
            },
        ),
{
    let encoder = RedisEncoder::new();
    let pb: Vec<u8> = param.as_bytes_vec();
    if param_is_dir(&pb) {
        match dir {
            Some(d) => {
                let items: [&str; 2] = ["dir", d.as_str()];
                encoder.encode_array(response, &items);
                proof {
                    assert(items@.map(|i: int, s: &str| s.spec_bytes()) =~= seq![
                        encode_utf8("dir"@),
                        encode_utf8(d@),
                    ]);
                }
            },
            None => encoder.encode_null(response),
        }
    } else if param_is_dbfilename(&pb) {
        match dbfilename {
            Some(f) => {
                let items: [&str; 2] = ["dbfilename", f.as_str()];
                encoder.encode_array(response, &items);
                proof {
                    assert(items@.map(|i: int, s: &str| s.spec_bytes()) =~= seq![
                        encode_utf8("dbfilename"@),
                        encode_utf8(f@),
                    ]);
                }
            },
            None => encoder.encode_null(response),
        }
    } else {
        encoder.encode_null(response);
    }
}

} // verus!
