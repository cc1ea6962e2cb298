//! An auxiliary command dispatcher over an already-split argument list:
//! pops the command word and its arguments off the front and produces the
//! exact reply bytes, mutating the store for `SET` and `GET`.
use crate::protocol::encoder::push_bulk_string;
use crate::protocol::encoder::spec_bulk_string;
use crate::protocol::encoder::spec_resp_null;
use crate::protocol::encoder::spec_resp_pong;
use crate::store::spec_expired_hit;
use crate::store::spec_lookup;
use crate::store::SpecValue;
use crate::store::Store;
use std::collections::VecDeque;
use vstd::prelude::*;
use vstd::string::StringExecFns;
use vstd::string::StringSliceAdditionalSpecFns;
use vstd::utf8::encode_utf8;

verus! {

/// Why a command list could not be processed.
#[derive(Debug, PartialEq, Eq, Structural)]
pub enum CommandError {
    /// The list held no command at all.
    Empty,
}

/// Arity demanded of the argument list: `ECHO` and `GET` need one
/// argument, `SET` needs two; anything else, including an empty list, asks
/// for nothing further.
pub open spec fn spec_command_args_ok(cmds: Seq<String>) -> bool {
    cmds.len() > 0 ==> {
        if cmds[0]@ == "ECHO"@ {
            cmds.len() >= 2
        } else if cmds[0]@ == "SET"@ {
            cmds.len() >= 3
        } else if cmds[0]@ == "GET"@ {
            cmds.len() >= 2
        } else {
            true
        }
    }
}

/// Processes one command from the front of `command_list`. `ECHO` returns
/// its argument as a bulk string; `SET` stores key and value without
/// expiry and returns `OK` as a bulk string; `GET` returns the live value
/// as a bulk string or the null bulk string; anything else returns
/// `+PONG\r\n`; an empty list is an error. Exactly the consumed command
/// and arguments leave the list.
pub fn process_command(
    command_list: &mut VecDeque<String>,
    store: &mut Store,
    now_ms: u64,
) -> (r: Result<Vec<u8>, CommandError>)
    requires
        old(store).inv(),
        spec_command_args_ok(old(command_list)@),
    ensures
        final(store).inv(),
        ({
            let cmds = old(command_list)@;
            if cmds.len() == 0 {
                &&& r == Err::<Vec<u8>, CommandError>(CommandError::Empty)
                &&& final(store)@ == old(store)@
                &&& final(command_list)@ == cmds
            } else if cmds[0]@ == "ECHO"@ {
                &&& r is Ok
                &&& r.unwrap()@ == spec_bulk_string(encode_utf8(cmds[1]@))
                &&& final(store)@ == old(store)@
                &&& final(command_list)@ == cmds.skip(2)
            } else if cmds[0]@ == "SET"@ {
                &&& r is Ok
                &&& r.unwrap()@ == spec_bulk_string(encode_utf8("OK"@))
                &&& final(store)@ == old(store)@.insert(
                    cmds[1]@,
                    SpecValue { data: cmds[2]@, expiry: None },
                )
                &&& final(command_list)@ == cmds.skip(3)
            } else if cmds[0]@ == "GET"@ {
                &&& (match spec_lookup(old(store)@, cmds[1]@, now_ms) {
                    Some(v) => r is Ok && r.unwrap()@ == spec_bulk_string(encode_utf8(v)),
                    None => r is Ok && r.unwrap()@ == spec_resp_null(),
                })
                &&& final(store)@ == (if spec_expired_hit(old(store)@, cmds[1]@, now_ms) {
                    old(store)@.remove(cmds[1]@)
                } else {
                    old(store)@
                })
                &&& final(command_list)@ == cmds.skip(2)
            } else {
                &&& r is Ok
                &&& r.unwrap()@ == spec_resp_pong()
                &&& final(store)@ == old(store)@
                &&& final(command_list)@ == cmds.skip(1)
            }
        }),
{
    let ghost cmds = command_list@;
    let command = match command_list.pop_front() {
        Some(c) => c,
        None => {
            return Err(CommandError::Empty);
        },
    };
    proof {
        assert(command_list@ =~= cmds.skip(1));
    }
    let kw_echo = String::from_str("ECHO");
    let kw_set = String::from_str("SET");
    let kw_get = String::from_str("GET");
    if command == kw_echo {
        let s = match command_list.pop_front() {
            Some(v) => v,
            None => {
                proof {
                    assert(false);
                }
                String::new()
            },
        };
        proof {
            assert(command_list@ =~= cmds.skip(2));
        }
        let mut reply: Vec<u8> = Vec::new();
        push_bulk_string(&mut reply, s.as_str().as_bytes());
        Ok(reply)
    } else if command == kw_set {
        let key = match command_list.pop_front() {
            Some(v) => v,
            None => {
                proof {
                    assert(false);
                }
                String::new()
            },
        };
        let value = match command_list.pop_front() {
            Some(v) => v,
            None => {
                proof {
                    assert(false);
                }
                String::new()
            },
        };
        proof {
            assert(command_list@ =~= cmds.skip(3));
        }
        store.insert(key, value, None, now_ms);
        let mut reply: Vec<u8> = Vec::new();
        push_bulk_string(&mut reply, "OK".as_bytes());
        proof {
            assert(reply@ == spec_bulk_string("OK".spec_bytes()));
        }
        Ok(reply)
    } else if command == kw_get {
        let key = match command_list.pop_front() {
            Some(v) => v,
            None => {
                proof {
                    assert(false);
                }
                String::new()
            },
        };
        proof {
            assert(command_list@ =~= cmds.skip(2));
        }
        match store.get(key.as_str(), now_ms) {
            Some(value) => {
                let mut reply: Vec<u8> = Vec::new();
                push_bulk_string(&mut reply, value.as_str().as_bytes());
                Ok(reply)
            },
            None => {
                let mut reply: Vec<u8> = Vec::new();
                reply.push(36);
                reply.push(45);
                reply.push(49);
                reply.push(13);
                reply.push(10);
                proof {
                    assert(reply@ =~= spec_resp_null());
                }
                Ok(reply)
            },
        }
    } else {
        let mut reply: Vec<u8> = Vec::new();
        reply.push(43);
        reply.push(80);
        reply.push(79);
        reply.push(78);
        reply.push(71);
        reply.push(13);
        reply.push(10);
        proof {
            assert(reply@ =~= spec_resp_pong());
        }
        Ok(reply)
    }
}

} // verus!
