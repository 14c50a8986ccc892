//! Command dispatch: pulling a command name and its arguments out of a
//! request value, and executing PING, ECHO, GET and SET against the
//! store. Command names are matched case-insensitively. Every malformed
//! request maps to an error reply; dispatch itself never fails.
use vstd::prelude::*;

use crate::numbers::int_line_value;
use crate::numbers::parse_int;
use crate::resp::views_of;
use crate::state::spec_get_result;
use crate::state::spec_get_state;
use crate::state::spec_set;
use crate::state::EntryModel;
use crate::state::ServerState;
use crate::value::RespType;
use crate::value::ValueView;

verus! {

/// Why a request could not be interpreted as a command.
#[derive(Clone, Copy, PartialEq, Eq, Structural, Debug)]
pub enum CommandError {
    /// The request is not an array whose first element names a command.
    InvalidCommand,
}

/// ASCII lowercasing of one byte.
pub open spec fn lower_byte(b: u8) -> u8 {
    if 65 <= b <= 90 {
        (b + 32) as u8
    } else {
        b
    }
}

/// ASCII lowercasing of a byte string.
pub open spec fn lower_seq(s: Seq<u8>) -> Seq<u8> {
    Seq::new(s.len(), |i: int| lower_byte(s[i]))
}

/// Lowercases ASCII letters, leaving every other byte alone.
fn to_lower(s: &[u8]) -> (r: Vec<u8>)
    ensures
        r@ == lower_seq(s@),
{
    let mut out: Vec<u8> = Vec::new();
    let n = s.len();
    let mut i: usize = 0;
    while i < n
        invariant
            n == s@.len(),
            0 <= i <= n,
            out@ =~= lower_seq(s@).take(i as int),
        decreases n - i,
    {
        let b = s[i];
        let l = if 65 <= b && b <= 90 {
            b + 32
        } else {
            b
        };
        proof {
            assert(out@.push(l) =~= lower_seq(s@).take(i + 1));
        }
        out.push(l);
        i = i + 1;
    }
    proof {
        assert(out@ =~= lower_seq(s@));
    }
    out
}

/// Whether `s` is exactly the three given bytes.
fn eq3(s: &Vec<u8>, b0: u8, b1: u8, b2: u8) -> (r: bool)
    ensures
        r == (s@ == seq![b0, b1, b2]),
{
    if s.len() == 3 && s[0] == b0 && s[1] == b1 && s[2] == b2 {
        proof {
            assert(s@ =~= seq![b0, b1, b2]);
        }
        true
    } else {
        false
    }
}

/// Whether `s` is exactly the four given bytes.
fn eq4(s: &Vec<u8>, b0: u8, b1: u8, b2: u8, b3: u8) -> (r: bool)
    ensures
        r == (s@ == seq![b0, b1, b2, b3]),
{
    if s.len() == 4 && s[0] == b0 && s[1] == b1 && s[2] == b2 && s[3] == b3 {
        proof {
            assert(s@ =~= seq![b0, b1, b2, b3]);
        }
        true
    } else {
        false
    }
}

/// The command name and arguments a request value carries: the request
/// must be an array whose first element is a bulk string.
pub open spec fn spec_get_command(v: ValueView) -> Option<(Seq<u8>, Seq<ValueView>)> {
    match v {
        ValueView::Array(elems) => if elems.len() >= 1 && elems[0] is BulkString {
            Some((elems[0]->BulkString_0, elems.skip(1)))
        } else {
            None
        },
        _ => None,
    }
}

/// Splits a request into its command name and argument list. Anything
/// that is not an array headed by a bulk string is an invalid command.
pub fn get_command(value: RespType) -> (r: Result<(Vec<u8>, Vec<RespType>), CommandError>)
    ensures
        match r {
            Ok(p) => spec_get_command(value@) == Some((p.0@, views_of(p.1@))),
            Err(e) => spec_get_command(value@) is None && e == CommandError::InvalidCommand,
        },
{
    let ghost v0 = value@;
    match value {
        RespType::Array(mut values) => {
            let ghost orig = values@;
            proof {
                let vs = v0->Array_0;
                assert(vs.len() == orig.len());
                assert forall|j: int| 0 <= j < vs.len() implies vs[j] == views_of(orig)[j] by {}
                assert(vs =~= views_of(orig));
            }
            if values.len() == 0 {
                return Err(CommandError::InvalidCommand);
            }
            let first = values.remove(0);
            proof {
                assert(views_of(orig)[0] == first@);
                assert(views_of(values@) =~= views_of(orig).skip(1));
            }
            match first {
                RespType::BulkString(name) => {
                    Ok((name, values))
                },
                _ => Err(CommandError::InvalidCommand),
            }
        },
        _ => Err(CommandError::InvalidCommand),
    }
}

/// The bulk-string payload of a value, or an invalid command if it is
/// any other shape.
pub fn unpack_bulk_string(value: RespType) -> (r: Result<Vec<u8>, CommandError>)
    ensures
        match r {
            Ok(s) => value@ == ValueView::BulkString(s@),
            Err(e) => !(value@ is BulkString) && e == CommandError::InvalidCommand,
        },
{
    match value {
        RespType::BulkString(s) => Ok(s),
        _ => Err(CommandError::InvalidCommand),
    }
}

/// The reply to a request, and the store contents it leaves behind.
/// Mirrors the command surface: PING answers PONG; ECHO answers its first
/// argument; GET answers the live payload or `Key not found`; SET stores
/// its payload, with a time to live when a third argument gives one in
/// seconds, and answers OK; everything else is an error reply. Only GET
/// and SET touch the store.
pub open spec fn spec_dispatch(v: ValueView, m: Map<Seq<u8>, EntryModel>, now: u64) -> (
    ValueView,
    Map<Seq<u8>, EntryModel>,
) {
    match spec_get_command(v) {
        None => (ValueView::Error(invalid_command_text()), m),
        Some(p) => {
            let name = p.0;
            let args = p.1;
            let cmd = lower_seq(name);
            if cmd == ping_name() {
                (ValueView::SimpleString(pong_text()), m)
            } else if cmd == echo_name() {
                if args.len() >= 1 {
                    (args[0], m)
                } else {
                    (ValueView::Error(invalid_command_text()), m)
                }
            } else if cmd == get_name() {
                if args.len() >= 1 && args[0] is BulkString {
                    let key = args[0]->BulkString_0;
                    let reply = match spec_get_result(m, key, now) {
                        Some(payload) => ValueView::BulkString(payload),
                        None => ValueView::Error(key_not_found_text()),
                    };
                    (reply, spec_get_state(m, key, now))
                } else {
                    (ValueView::Error(invalid_command_text()), m)
                }
            } else if cmd == set_name() {
                if args.len() >= 3 {
                    if args[0] is BulkString && args[1] is BulkString && args[2] is BulkString {
                        let key = args[0]->BulkString_0;
                        let payload = args[1]->BulkString_0;
                        let ttl_line = args[2]->BulkString_0;
                        match int_line_value(ttl_line) {
                            Some(t) => if t >= 0 {
                                (
                                    ValueView::SimpleString(ok_text()),
                                    spec_set(m, key, payload, Some(t as u64), now),
                                )
                            } else {
                                (ValueView::Error(invalid_ttl_text()), m)
                            },
                            None => (ValueView::Error(invalid_ttl_text()), m),
                        }
                    } else {
                        (ValueView::Error(set_three_args_text()), m)
                    }
                } else if args.len() == 2 {
                    if args[0] is BulkString && args[1] is BulkString {
                        let key = args[0]->BulkString_0;
                        let payload = args[1]->BulkString_0;
                        (ValueView::SimpleString(ok_text()), spec_set(m, key, payload, None, now))
                    } else {
                        (ValueView::Error(set_two_args_text()), m)
                    }
                } else {
                    (ValueView::Error(set_arity_text()), m)
                }
            } else {
                (ValueView::Error(invalid_command_text()), m)
            }
        },
    }
}

/// Interprets one request against the store at time `now` and returns the
/// reply to send. Never panics and never fails: every malformed request
/// becomes an error reply, and the connection can carry on.
pub fn dispatch(value: RespType, state: &mut ServerState, now: u64) -> (r: RespType)
    requires
        old(state).wf(),
    ensures
        final(state).wf(),
        r@ == spec_dispatch(value@, old(state).contents(), now).0,
        final(state).contents() == spec_dispatch(value@, old(state).contents(), now).1,
{
    match get_command(value) {
        Err(_) => RespType::Error(make_invalid_command()),
        Ok((name, mut args)) => {
            let ghost spec_args = views_of(args@);
            let lname = to_lower(name.as_slice());
            if eq4(&lname, 112, 105, 110, 103) {  // "ping"
                RespType::SimpleString(make_pong())
            } else if eq4(&lname, 101, 99, 104, 111) {  // "echo"
                if args.len() >= 1 {
                    let first = args.remove(0);
                    proof {
                        assert(first@ == spec_args[0]);
                    }
                    first
                } else {
                    RespType::Error(make_invalid_command())
                }
            } else if eq3(&lname, 103, 101, 116) {  // "get"
                if args.len() >= 1 {
                    let first = args.remove(0);
                    proof {
                        assert(first@ == spec_args[0]);
                    }
                    match first {
                        RespType::BulkString(key) => {
                            match state.get(key.as_slice(), now) {
                                Some(payload) => RespType::BulkString(payload),
                                None => RespType::Error(make_key_not_found()),
                            }
                        },
                        _ => RespType::Error(make_invalid_command()),
                    }
                } else {
                    RespType::Error(make_invalid_command())
                }
            } else if eq3(&lname, 115, 101, 116) {  // "set"
                if args.len() >= 3 {
                    let a0 = args.remove(0);
                    let a1 = args.remove(0);
                    let a2 = args.remove(0);
                    proof {
                        assert(a0@ == spec_args[0]);
                        assert(a1@ == spec_args[1]);
                        assert(a2@ == spec_args[2]);
                    }
                    match (a0, a1, a2) {
                        (
                            RespType::BulkString(key),
                            RespType::BulkString(payload),
                            RespType::BulkString(ttl_bytes),
                        ) => {
                            match parse_int(ttl_bytes.as_slice()) {
                                Ok(t) => {
                                    if t >= 0 {
                                        state.set(key, payload, Some(t as u64), now);
                                        RespType::SimpleString(make_ok())
                                    } else {
                                        RespType::Error(make_invalid_ttl())
                                    }
                                },
                                Err(_) => RespType::Error(make_invalid_ttl()),
                            }
                        },
                        _ => RespType::Error(make_set_three_args()),
                    }
                } else if args.len() == 2 {
                    let a0 = args.remove(0);
                    let a1 = args.remove(0);
                    proof {
                        assert(a0@ == spec_args[0]);
                        assert(a1@ == spec_args[1]);
                    }
                    match (a0, a1) {
                        (RespType::BulkString(key), RespType::BulkString(payload)) => {
                            state.set(key, payload, None, now);
                            RespType::SimpleString(make_ok())
                        },
                        _ => RespType::Error(make_set_two_args()),
                    }
                } else {
                    RespType::Error(make_set_arity())
                }
            } else {
                RespType::Error(make_invalid_command())
            }
        },
    }
}

/// The reply text `PONG`.
pub open spec fn pong_text() -> Seq<u8> {
    seq![80u8, 79u8, 78u8, 71u8]
}

fn make_pong() -> (r: Vec<u8>)
    ensures
        r@ == pong_text(),
{
    let mut v: Vec<u8> = Vec::new();
    v.push(80);
    v.push(79);
    v.push(78);
    v.push(71);
    proof {
        assert(v@ =~= pong_text());
    }
    v
}

/// The reply text `OK`.
pub open spec fn ok_text() -> Seq<u8> {
    seq![79u8, 75u8]
}

fn make_ok() -> (r: Vec<u8>)
    ensures
        r@ == ok_text(),
{
    let mut v: Vec<u8> = Vec::new();
    v.push(79);
    v.push(75);
    proof {
        assert(v@ =~= ok_text());
    }
    v
}

/// The reply text `Invalid command`.
pub open spec fn invalid_command_text() -> Seq<u8> {
    seq![73u8, 110u8, 118u8, 97u8, 108u8, 105u8, 100u8, 32u8, 99u8, 111u8, 109u8, 109u8, 97u8, 110u8, 100u8]
}

fn make_invalid_command() -> (r: Vec<u8>)
    ensures
        r@ == invalid_command_text(),
{
    let mut v: Vec<u8> = Vec::new();
    v.push(73);
    v.push(110);
    v.push(118);
    v.push(97);
    v.push(108);
    v.push(105);
    v.push(100);
    v.push(32);
    v.push(99);
    v.push(111);
    v.push(109);
    v.push(109);
    v.push(97);
    v.push(110);
    v.push(100);
    proof {
        assert(v@ =~= invalid_command_text());
    }
    v
}

/// The reply text `Key not found`.
pub open spec fn key_not_found_text() -> Seq<u8> {
    seq![75u8, 101u8, 121u8, 32u8, 110u8, 111u8, 116u8, 32u8, 102u8, 111u8, 117u8, 110u8, 100u8]
}

fn make_key_not_found() -> (r: Vec<u8>)
    ensures
        r@ == key_not_found_text(),
{
    let mut v: Vec<u8> = Vec::new();
    v.push(75);
    v.push(101);
    v.push(121);
    v.push(32);
    v.push(110);
    v.push(111);
    v.push(116);
    v.push(32);
    v.push(102);
    v.push(111);
    v.push(117);
    v.push(110);
    v.push(100);
    proof {
        assert(v@ =~= key_not_found_text());
    }
    v
}

/// The reply text `Invalid TTL: must be a valid integer`.
pub open spec fn invalid_ttl_text() -> Seq<u8> {
    seq![73u8, 110u8, 118u8, 97u8, 108u8, 105u8, 100u8, 32u8, 84u8, 84u8, 76u8, 58u8, 32u8, 109u8, 117u8, 115u8, 116u8, 32u8, 98u8, 101u8, 32u8, 97u8, 32u8, 118u8, 97u8, 108u8, 105u8, 100u8, 32u8, 105u8, 110u8, 116u8, 101u8, 103u8, 101u8, 114u8]
}

fn make_invalid_ttl() -> (r: Vec<u8>)
    ensures
        r@ == invalid_ttl_text(),
{
    let mut v: Vec<u8> = Vec::new();
    v.push(73);
    v.push(110);
    v.push(118);
    v.push(97);
    v.push(108);
    v.push(105);
    v.push(100);
    v.push(32);
    v.push(84);
    v.push(84);
    v.push(76);
    v.push(58);
    v.push(32);
    v.push(109);
    v.push(117);
    v.push(115);
    v.push(116);
    v.push(32);
    v.push(98);
    v.push(101);
    v.push(32);
    v.push(97);
    v.push(32);
    v.push(118);
    v.push(97);
    v.push(108);
    v.push(105);
    v.push(100);
    v.push(32);
    v.push(105);
    v.push(110);
    v.push(116);
    v.push(101);
    v.push(103);
    v.push(101);
    v.push(114);
    proof {
        assert(v@ =~= invalid_ttl_text());
    }
    v
}

/// The reply text `Invalid command: key, value, and ttl must be bulk strings`.
pub open spec fn set_three_args_text() -> Seq<u8> {
    seq![73u8, 110u8, 118u8, 97u8, 108u8, 105u8, 100u8, 32u8, 99u8, 111u8, 109u8, 109u8, 97u8, 110u8, 100u8, 58u8, 32u8, 107u8, 101u8, 121u8, 44u8, 32u8, 118u8, 97u8, 108u8, 117u8, 101u8, 44u8, 32u8, 97u8, 110u8, 100u8, 32u8, 116u8, 116u8, 108u8, 32u8, 109u8, 117u8, 115u8, 116u8, 32u8, 98u8, 101u8, 32u8, 98u8, 117u8, 108u8, 107u8, 32u8, 115u8, 116u8, 114u8, 105u8, 110u8, 103u8, 115u8]
}

fn make_set_three_args() -> (r: Vec<u8>)
    ensures
        r@ == set_three_args_text(),
{
    let mut v: Vec<u8> = Vec::new();
    v.push(73);
    v.push(110);
    v.push(118);
    v.push(97);
    v.push(108);
    v.push(105);
    v.push(100);
    v.push(32);
    v.push(99);
    v.push(111);
    v.push(109);
    v.push(109);
    v.push(97);
    v.push(110);
    v.push(100);
    v.push(58);
    v.push(32);
    v.push(107);
    v.push(101);
    v.push(121);
    v.push(44);
    v.push(32);
    v.push(118);
    v.push(97);
    v.push(108);
    v.push(117);
    v.push(101);
    v.push(44);
    v.push(32);
    v.push(97);
    v.push(110);
    v.push(100);
    v.push(32);
    v.push(116);
    v.push(116);
    v.push(108);
    v.push(32);
    v.push(109);
    v.push(117);
    v.push(115);
    v.push(116);
    v.push(32);
    v.push(98);
    v.push(101);
    v.push(32);
    v.push(98);
    v.push(117);
    v.push(108);
    v.push(107);
    v.push(32);
    v.push(115);
    v.push(116);
    v.push(114);
    v.push(105);
    v.push(110);
    v.push(103);
    v.push(115);
    proof {
        assert(v@ =~= set_three_args_text());
    }
    v
}

/// The reply text `Invalid command: key and value must be bulk strings`.
pub open spec fn set_two_args_text() -> Seq<u8> {
    seq![73u8, 110u8, 118u8, 97u8, 108u8, 105u8, 100u8, 32u8, 99u8, 111u8, 109u8, 109u8, 97u8, 110u8, 100u8, 58u8, 32u8, 107u8, 101u8, 121u8, 32u8, 97u8, 110u8, 100u8, 32u8, 118u8, 97u8, 108u8, 117u8, 101u8, 32u8, 109u8, 117u8, 115u8, 116u8, 32u8, 98u8, 101u8, 32u8, 98u8, 117u8, 108u8, 107u8, 32u8, 115u8, 116u8, 114u8, 105u8, 110u8, 103u8, 115u8]
}

fn make_set_two_args() -> (r: Vec<u8>)
    ensures
        r@ == set_two_args_text(),
{
    let mut v: Vec<u8> = Vec::new();
    v.push(73);
    v.push(110);
    v.push(118);
    v.push(97);
    v.push(108);
    v.push(105);
    v.push(100);
    v.push(32);
    v.push(99);
    v.push(111);
    v.push(109);
    v.push(109);
    v.push(97);
    v.push(110);
    v.push(100);
    v.push(58);
    v.push(32);
    v.push(107);
    v.push(101);
    v.push(121);
    v.push(32);
    v.push(97);
    v.push(110);
    v.push(100);
    v.push(32);
    v.push(118);
    v.push(97);
    v.push(108);
    v.push(117);
    v.push(101);
    v.push(32);
    v.push(109);
    v.push(117);
    v.push(115);
    v.push(116);
    v.push(32);
    v.push(98);
    v.push(101);
    v.push(32);
    v.push(98);
    v.push(117);
    v.push(108);
    v.push(107);
    v.push(32);
    v.push(115);
    v.push(116);
    v.push(114);
    v.push(105);
    v.push(110);
    v.push(103);
    v.push(115);
    proof {
        assert(v@ =~= set_two_args_text());
    }
    v
}

/// The reply text `Invalid command: set requires at least a key and a value`.
pub open spec fn set_arity_text() -> Seq<u8> {
    seq![73u8, 110u8, 118u8, 97u8, 108u8, 105u8, 100u8, 32u8, 99u8, 111u8, 109u8, 109u8, 97u8, 110u8, 100u8, 58u8, 32u8, 115u8, 101u8, 116u8, 32u8, 114u8, 101u8, 113u8, 117u8, 105u8, 114u8, 101u8, 115u8, 32u8, 97u8, 116u8, 32u8, 108u8, 101u8, 97u8, 115u8, 116u8, 32u8, 97u8, 32u8, 107u8, 101u8, 121u8, 32u8, 97u8, 110u8, 100u8, 32u8, 97u8, 32u8, 118u8, 97u8, 108u8, 117u8, 101u8]
}

fn make_set_arity() -> (r: Vec<u8>)
    ensures
        r@ == set_arity_text(),
{
    let mut v: Vec<u8> = Vec::new();
    v.push(73);
    v.push(110);
    v.push(118);
    v.push(97);
    v.push(108);
    v.push(105);
    v.push(100);
    v.push(32);
    v.push(99);
    v.push(111);
    v.push(109);
    v.push(109);
    v.push(97);
    v.push(110);
    v.push(100);
    v.push(58);
    v.push(32);
    v.push(115);
    v.push(101);
    v.push(116);
    v.push(32);
    v.push(114);
    v.push(101);
    v.push(113);
    v.push(117);
    v.push(105);
    v.push(114);
    v.push(101);
    v.push(115);
    v.push(32);
    v.push(97);
    v.push(116);
    v.push(32);
    v.push(108);
    v.push(101);
    v.push(97);
    v.push(115);
    v.push(116);
    v.push(32);
    v.push(97);
    v.push(32);
    v.push(107);
    v.push(101);
    v.push(121);
    v.push(32);
    v.push(97);
    v.push(110);
    v.push(100);
    v.push(32);
    v.push(97);
    v.push(32);
    v.push(118);
    v.push(97);
    v.push(108);
    v.push(117);
    v.push(101);
    proof {
        assert(v@ =~= set_arity_text());
    }
    v
}

/// The command name `ping`.
pub open spec fn ping_name() -> Seq<u8> {
    seq![112u8, 105u8, 110u8, 103u8]
}

/// The command name `echo`.
pub open spec fn echo_name() -> Seq<u8> {
    seq![101u8, 99u8, 104u8, 111u8]
}

/// The command name `get`.
pub open spec fn get_name() -> Seq<u8> {
    seq![103u8, 101u8, 116u8]
}

/// The command name `set`.
pub open spec fn set_name() -> Seq<u8> {
    seq![115u8, 101u8, 116u8]
}

} // verus!
