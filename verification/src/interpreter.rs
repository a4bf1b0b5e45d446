//! The command interpreter: maps one decoded protocol value onto a store
//! operation and produces the reply text. The executable interpreter is
//! proved equal to the specification interpreter `spec_interpret`, which
//! fixes, for every argument vector and store state, the reply and the new
//! store state — or the error, exactly when no reply is owed.
//!
//! Time enters as an explicit argument: `interpret_at` is deterministic in
//! it, and `interpret` reads the wall clock once and delegates.

use vstd::prelude::*;
use crate::data::{RespObj, Value, InterpretError, CmdError, RespCommand, spec_command_ci, deep_list};
use crate::numbers::spec_parse_u128;
use crate::reply::{simple_reply, ok_reply, nil_reply, expired_reply, pong_reply, pong_reply_with};
use crate::store::{Store, StoreModel};

verus! {

/// A negative offset read from a 64-bit integer argument wraps to a huge
/// one, as the two's-complement cast does.
pub open spec fn wrap_offset(e: i64) -> u128 {
    if e >= 0 {
        e as u128
    } else {
        (0x100000000000000000000000000000000 + e) as u128
    }
}

/// Adding an offset to the clock saturates rather than wraps.
pub open spec fn sat_add(now: u128, off: u128) -> u128 {
    if now + off > u128::MAX {
        u128::MAX
    } else {
        (now + off) as u128
    }
}

/// The relative expiry offset a SET's fourth argument denotes: an integer is
/// taken as is (negative ones wrap), text must parse as an unsigned number,
/// and anything unreadable silently means "no expiry".
pub open spec fn spec_expiry_arg(v: Value) -> Option<u128> {
    match v {
        Value::Int(e) => Some(wrap_offset(e)),
        Value::Text(s) => spec_parse_u128(s),
        Value::Array(_) => None,
    }
}

/// PING: no argument replies PONG; one text argument is echoed after PONG.
pub open spec fn spec_ping(rest: Seq<Value>) -> Result<Seq<char>, CmdError> {
    if rest.len() == 0 {
        Ok(pong_reply())
    } else if rest.len() == 1 && rest[0] is Text {
        Ok(pong_reply_with(rest[0]->Text_0))
    } else {
        Err(CmdError::BadArguments)
    }
}

/// ECHO: no argument replies nothing at all; one text argument is framed
/// back as a simple string.
pub open spec fn spec_echo(rest: Seq<Value>) -> Result<Seq<char>, CmdError> {
    if rest.len() == 0 {
        Ok(Seq::empty())
    } else if rest.len() == 1 && rest[0] is Text {
        Ok(simple_reply(rest[0]->Text_0))
    } else {
        Err(CmdError::BadArguments)
    }
}

/// GET: exactly one text key. An absent key replies the never-set nil. A key
/// whose expiry has passed (now at or past it) is removed in the same step
/// and replies the expired nil. Otherwise the stored value is framed back.
pub open spec fn spec_get(rest: Seq<Value>, m: StoreModel, now: u128) -> Result<
    (Seq<char>, StoreModel),
    CmdError,
> {
    if rest.len() != 1 || !(rest[0] is Text) {
        Err(CmdError::BadArguments)
    } else {
        let k = rest[0]->Text_0;
        if !m.contains_key(k) {
            Ok((nil_reply(), m))
        } else {
            let entry = m[k];
            match entry.1 {
                None => Ok((simple_reply(entry.0), m)),
                Some(t) => if now < t {
                    Ok((simple_reply(entry.0), m))
                } else {
                    Ok((expired_reply(), m.remove(k)))
                },
            }
        }
    }
}

/// SET: two or four arguments, key and value text. The four-argument form
/// carries a relative expiry offset in its last argument (its third, the
/// keyword, goes unread); the entry is written whole, value and absolute
/// expiry together, replacing any earlier entry under the key.
pub open spec fn spec_set(rest: Seq<Value>, m: StoreModel, now: u128) -> Result<
    (Seq<char>, StoreModel),
    CmdError,
> {
    if rest.len() != 2 && rest.len() != 4 {
        Err(CmdError::BadArguments)
    } else if !(rest[0] is Text) || !(rest[1] is Text) {
        Err(CmdError::BadArguments)
    } else {
        let k = rest[0]->Text_0;
        let v = rest[1]->Text_0;
        let off = if rest.len() == 4 {
            spec_expiry_arg(rest[3])
        } else {
            None
        };
        let expires_at = match off {
            Some(o) => Some(sat_add(now, o)),
            None => None,
        };
        Ok((ok_reply(), m.insert(k, (v, expires_at))))
    }
}

/// Dispatch over a nonempty argument vector whose first element names the
/// command, matched case-insensitively.
pub open spec fn spec_interpret_args(args: Seq<Value>, m: StoreModel, now: u128) -> Result<
    (Seq<char>, StoreModel),
    CmdError,
> {
    if args.len() == 0 || !(args[0] is Text) {
        Err(CmdError::UnsupportedValue)
    } else {
        let name = args[0]->Text_0;
        match spec_command_ci(name) {
            None => Err(CmdError::UnknownCommand(name)),
            Some(RespCommand::Ping) => match spec_ping(args.drop_first()) {
                Ok(s) => Ok((s, m)),
                Err(e) => Err(e),
            },
            Some(RespCommand::Echo) => match spec_echo(args.drop_first()) {
                Ok(s) => Ok((s, m)),
                Err(e) => Err(e),
            },
            Some(RespCommand::Get) => spec_get(args.drop_first(), m, now),
            Some(RespCommand::SetValue) => spec_set(args.drop_first(), m, now),
        }
    }
}

/// The specification interpreter: an array is the argument vector itself; a
/// bare text value is a one-element vector (an inline command); an integer
/// can head no command.
pub open spec fn spec_interpret(v: Value, m: StoreModel, now: u128) -> Result<
    (Seq<char>, StoreModel),
    CmdError,
> {
    match v {
        Value::Array(items) => spec_interpret_args(items, m, now),
        Value::Text(_) => spec_interpret_args(seq![v], m, now),
        Value::Int(_) => Err(CmdError::UnsupportedValue),
    }
}

/// Turns an integer expiry argument into an offset, as `wrap_offset` says.
fn offset_of_int(e: i64) -> (r: u128)
    ensures
        r == wrap_offset(e),
{
    if e >= 0 {
        e as u128
    } else {
        let mag: u128 = (-(e as i128)) as u128;
        u128::MAX - mag + 1
    }
}

/// Adds an offset to the clock, saturating at the largest timestamp.
fn saturating_add(now: u128, off: u128) -> (r: u128)
    ensures
        r == sat_add(now, off),
{
    if off > u128::MAX - now {
        u128::MAX
    } else {
        now + off
    }
}

/// Handles PING.
fn handle_ping(rest: &[RespObj]) -> (r: Result<String, InterpretError>)
    ensures
        match (r, spec_ping(deep_list(rest@))) {
            (Ok(s), Ok(cs)) => s@ == cs,
            (Err(e), Err(ce)) => e.deep() == ce,
            _ => false,
        },
{
    if rest.len() == 0 {
        Ok(crate::reply::format_pong())
    } else if rest.len() == 1 {
        match &rest[0] {
            RespObj::String(arg) => Ok(crate::reply::format_pong_with(arg.as_str())),
            _ => Err(InterpretError::BadArguments),
        }
    } else {
        Err(InterpretError::BadArguments)
    }
}

/// Handles ECHO.
fn handle_echo(rest: &[RespObj]) -> (r: Result<String, InterpretError>)
    ensures
        match (r, spec_echo(deep_list(rest@))) {
            (Ok(s), Ok(cs)) => s@ == cs,
            (Err(e), Err(ce)) => e.deep() == ce,
            _ => false,
        },
{
    if rest.len() == 0 {
        let empty = String::new();
        assert(empty@ =~= Seq::<char>::empty());
        Ok(empty)
    } else if rest.len() == 1 {
        match &rest[0] {
            RespObj::String(arg) => Ok(crate::reply::format_simple(arg.as_str())),
            _ => Err(InterpretError::BadArguments),
        }
    } else {
        Err(InterpretError::BadArguments)
    }
}

/// Handles GET, deleting a just-expired key as one step with the lookup.
fn handle_get(rest: &[RespObj], store: &mut Store, now: u128) -> (r: Result<String, InterpretError>)
    ensures
        match (r, spec_get(deep_list(rest@), old(store)@, now)) {
            (Ok(s), Ok((cs, m1))) => s@ == cs && final(store)@ == m1,
            (Err(e), Err(ce)) => e.deep() == ce && final(store)@ == old(store)@,
            _ => false,
        },
{
    if rest.len() != 1 {
        return Err(InterpretError::BadArguments);
    }
    let key = match &rest[0] {
        RespObj::String(key) => key,
        _ => {
            return Err(InterpretError::BadArguments);
        },
    };
    match store.lookup(key) {
        None => Ok(crate::reply::format_nil()),
        Some((value, expiry)) => match expiry {
            None => Ok(crate::reply::format_simple(value.as_str())),
            Some(t) => {
                if now < t {
                    Ok(crate::reply::format_simple(value.as_str()))
                } else {
                    store.remove_key(key);
                    Ok(crate::reply::format_expired())
                }
            },
        },
    }
}

/// Handles SET, writing value and expiry together.
fn handle_set(rest: &[RespObj], store: &mut Store, now: u128) -> (r: Result<String, InterpretError>)
    ensures
        match (r, spec_set(deep_list(rest@), old(store)@, now)) {
            (Ok(s), Ok((cs, m1))) => s@ == cs && final(store)@ == m1,
            (Err(e), Err(ce)) => e.deep() == ce && final(store)@ == old(store)@,
            _ => false,
        },
{
    if rest.len() != 2 && rest.len() != 4 {
        return Err(InterpretError::BadArguments);
    }
    let key = match &rest[0] {
        RespObj::String(key) => key,
        _ => {
            return Err(InterpretError::BadArguments);
        },
    };
    let value = match &rest[1] {
        RespObj::String(value) => value,
        _ => {
            return Err(InterpretError::BadArguments);
        },
    };
    let offset: Option<u128> = if rest.len() == 4 {
        match &rest[3] {
            RespObj::Integer(e) => Some(offset_of_int(*e)),
            RespObj::String(s) => crate::numbers::parse_u128(s.as_str()),
            _ => None,
        }
    } else {
        None
    };
    let expires_at = match offset {
        Some(o) => Some(saturating_add(now, o)),
        None => None,
    };
    store.set(key.clone(), value.clone(), expires_at);
    Ok(crate::reply::format_ok())
}

/// Dispatches one command: `first` names it, `rest` carries its arguments.
fn interpret_args(first: &RespObj, rest: &[RespObj], store: &mut Store, now: u128) -> (r: Result<
    String,
    InterpretError,
>)
    ensures
        match (r, spec_interpret_args(seq![first.deep()] + deep_list(rest@), old(store)@, now)) {
            (Ok(s), Ok((cs, m1))) => s@ == cs && final(store)@ == m1,
            (Err(e), Err(ce)) => e.deep() == ce && final(store)@ == old(store)@,
            _ => false,
        },
{
    let ghost args = seq![first.deep()] + deep_list(rest@);
    proof {
        assert(args.drop_first() =~= deep_list(rest@));
    }
    let name = match first {
        RespObj::String(name) => name,
        _ => {
            return Err(InterpretError::UnsupportedValue);
        },
    };
    if crate::text::str_ci_eq(name.as_str(), "ping") {
        handle_ping(rest)
    } else if crate::text::str_ci_eq(name.as_str(), "echo") {
        handle_echo(rest)
    } else if crate::text::str_ci_eq(name.as_str(), "get") {
        handle_get(rest, store, now)
    } else if crate::text::str_ci_eq(name.as_str(), "set") {
        handle_set(rest, store, now)
    } else {
        Err(InterpretError::UnknownCommand(name.clone()))
    }
}

/// Interprets one decoded protocol value against the store at time `now`;
/// equal, in the model, to `spec_interpret`.
pub fn interpret_at(resp_obj: &RespObj, store: &mut Store, now: u128) -> (r: Result<
    String,
    InterpretError,
>)
    ensures
        match (r, spec_interpret(resp_obj.deep(), old(store)@, now)) {
            (Ok(s), Ok((cs, m1))) => s@ == cs && final(store)@ == m1,
            (Err(e), Err(ce)) => e.deep() == ce && final(store)@ == old(store)@,
            _ => false,
        },
{
    match resp_obj {
        RespObj::Array(items) => {
            if items.len() == 0 {
                proof {
                    crate::data::lemma_deep_rec(items@);
                    assert(resp_obj.deep()->Array_0.len() == 0);
                }
                return Err(InterpretError::UnsupportedValue);
            }
            let first = &items[0];
            let rest = vstd::slice::slice_subrange(items.as_slice(), 1, items.len());
            proof {
                crate::data::lemma_deep_rec(items@);
                assert(rest@ =~= items@.skip(1));
                assert(seq![first.deep()] + deep_list(rest@) =~= deep_list(items@));
                assert(resp_obj.deep() == Value::Array(deep_list(items@)));
            }
            interpret_args(first, rest, store, now)
        },
        RespObj::String(_) => {
            let empty_rest: Vec<RespObj> = Vec::new();
            proof {
                assert(deep_list(empty_rest@) =~= Seq::<Value>::empty());
                assert(seq![resp_obj.deep()] + deep_list(empty_rest@) =~= seq![resp_obj.deep()]);
            }
            interpret_args(resp_obj, empty_rest.as_slice(), store, now)
        },
        RespObj::Integer(_) => Err(InterpretError::UnsupportedValue),
    }
}

/// Interprets one decoded protocol value against the store at the wall
/// clock's present reading: correct, in the model, for that reading.
pub fn interpret(resp_obj: &RespObj, store: &mut Store) -> (r: Result<String, InterpretError>)
    ensures
        exists|now: u128|
            match (r, #[trigger] spec_interpret(resp_obj.deep(), old(store)@, now)) {
                (Ok(s), Ok((cs, m1))) => s@ == cs && final(store)@ == m1,
                (Err(e), Err(ce)) => e.deep() == ce && final(store)@ == old(store)@,
                _ => false,
            },
{
    let now = crate::time::get_millis_since_epoch();
    interpret_at(resp_obj, store, now)
}

/// A GET command — the array `["get", key]`, in any letter case the name
/// `"get"` has — dispatches to the GET semantics.
pub proof fn lemma_interpret_get(name: Seq<char>, k: Seq<char>, m: StoreModel, now: u128)
    requires
        crate::text::seq_ci_eq(name, "get"@),
    ensures
        spec_interpret(Value::Array(seq![Value::Text(name), Value::Text(k)]), m, now) == spec_get(
            seq![Value::Text(k)],
            m,
            now,
        ),
{
    reveal_strlit("get");
    reveal_strlit("ping");
    reveal_strlit("echo");
    reveal_strlit("set");
    let args = seq![Value::Text(name), Value::Text(k)];
    assert(!crate::text::seq_ci_eq(name, "ping"@));
    assert(!crate::text::seq_ci_eq(name, "echo"@));
    assert(!crate::text::seq_ci_eq(name, "set"@)) by {
        if crate::text::seq_ci_eq(name, "set"@) {
            assert(crate::text::char_ci_eq(name[0], 's'));
            assert(crate::text::char_ci_eq(name[0], 'g'));
        }
    }
    assert(args.drop_first() =~= seq![Value::Text(k)]);
}

/// Law: repeated GET, as a full command, is idempotent on an unexpired key.
/// Each call replies the stored value and leaves the store exactly as it
/// was, at every clock reading that lies before the key's expiry.
pub proof fn lemma_get_command_idempotent(k: Seq<char>, m: StoreModel, now: u128, later: u128)
    requires
        m.contains_key(k),
        m[k].1 matches Some(t) ==> now < t && later < t,
    ensures
        spec_interpret(Value::Array(seq![Value::Text("get"@), Value::Text(k)]), m, now) == Ok::<
            (Seq<char>, StoreModel),
            CmdError,
        >((simple_reply(m[k].0), m)),
        spec_interpret(Value::Array(seq![Value::Text("get"@), Value::Text(k)]), m, later) == Ok::<
            (Seq<char>, StoreModel),
            CmdError,
        >((simple_reply(m[k].0), m)),
{
    lemma_interpret_get("get"@, k, m, now);
    lemma_interpret_get("get"@, k, m, later);
}

/// Law: GET, as a full command, replies the expired nil exactly once. On a
/// key whose expiry has passed, the first GET replies the expired nil and
/// removes the key in the same step; every later GET finds it absent and
/// replies the never-set nil, at any later clock reading.
pub proof fn lemma_get_command_expired_then_absent(
    k: Seq<char>,
    m: StoreModel,
    now: u128,
    later: u128,
)
    requires
        m.contains_key(k),
        m[k].1 matches Some(t) && now >= t,
    ensures
        spec_interpret(Value::Array(seq![Value::Text("get"@), Value::Text(k)]), m, now) == Ok::<
            (Seq<char>, StoreModel),
            CmdError,
        >((expired_reply(), m.remove(k))),
        spec_interpret(
            Value::Array(seq![Value::Text("get"@), Value::Text(k)]),
            m.remove(k),
            later,
        ) == Ok::<(Seq<char>, StoreModel), CmdError>((nil_reply(), m.remove(k))),
{
    lemma_interpret_get("get"@, k, m, now);
    lemma_interpret_get("get"@, k, m.remove(k), later);
}

/// A SET command — the array `["set", key, value]`, in any letter case the
/// name `"set"` has — dispatches to the SET semantics.
pub proof fn lemma_interpret_set(
    name: Seq<char>,
    k: Seq<char>,
    v: Seq<char>,
    m: StoreModel,
    now: u128,
)
    requires
        crate::text::seq_ci_eq(name, "set"@),
    ensures
        spec_interpret(
            Value::Array(seq![Value::Text(name), Value::Text(k), Value::Text(v)]),
            m,
            now,
        ) == spec_set(seq![Value::Text(k), Value::Text(v)], m, now),
{
    reveal_strlit("get");
    reveal_strlit("ping");
    reveal_strlit("echo");
    reveal_strlit("set");
    let args = seq![Value::Text(name), Value::Text(k), Value::Text(v)];
    assert(!crate::text::seq_ci_eq(name, "ping"@));
    assert(!crate::text::seq_ci_eq(name, "echo"@));
    assert(!crate::text::seq_ci_eq(name, "get"@)) by {
        if crate::text::seq_ci_eq(name, "get"@) {
            assert(crate::text::char_ci_eq(name[0], 'g'));
            assert(crate::text::char_ci_eq(name[0], 's'));
        }
    }
    assert(args.drop_first() =~= seq![Value::Text(k), Value::Text(v)]);
}

/// Law: SETs of distinct keys commute. Whichever order two SETs of different
/// keys reach the store in, the final store is the same and each key durably
/// holds its own value — neither write is lost.
pub proof fn lemma_set_distinct_commutes(
    k1: Seq<char>,
    v1: Seq<char>,
    k2: Seq<char>,
    v2: Seq<char>,
    m: StoreModel,
    now1: u128,
    now2: u128,
)
    requires
        k1 != k2,
    ensures
        ({
            let r12 = spec_set(
                seq![Value::Text(k2), Value::Text(v2)],
                spec_set(seq![Value::Text(k1), Value::Text(v1)], m, now1)->Ok_0.1,
                now2,
            );
            let r21 = spec_set(
                seq![Value::Text(k1), Value::Text(v1)],
                spec_set(seq![Value::Text(k2), Value::Text(v2)], m, now2)->Ok_0.1,
                now1,
            );
            &&& r12 is Ok
            &&& r21 is Ok
            &&& r12->Ok_0.1 == r21->Ok_0.1
            &&& r12->Ok_0.1[k1] == (v1, Option::<u128>::None)
            &&& r12->Ok_0.1[k2] == (v2, Option::<u128>::None)
        }),
{
    let e1 = (v1, Option::<u128>::None);
    let e2 = (v2, Option::<u128>::None);
    assert(m.insert(k1, e1).insert(k2, e2) =~= m.insert(k2, e2).insert(k1, e1));
}

/// Law: SETs of the same key leave exactly the later entry. After two SETs
/// of one key the store holds one of the two written values with its own
/// expiry — the one written second — never a mixture of the two writes.
pub proof fn lemma_set_same_key_last_wins(
    k: Seq<char>,
    v1: Seq<char>,
    v2: Seq<char>,
    m: StoreModel,
    now1: u128,
    now2: u128,
)
    ensures
        ({
            let r = spec_set(
                seq![Value::Text(k), Value::Text(v2)],
                spec_set(seq![Value::Text(k), Value::Text(v1)], m, now1)->Ok_0.1,
                now2,
            );
            &&& r is Ok
            &&& r->Ok_0.1 == m.insert(k, (v2, Option::<u128>::None))
            &&& r->Ok_0.1[k] == (v2, Option::<u128>::None)
        }),
{
    let e1 = (v1, Option::<u128>::None);
    let e2 = (v2, Option::<u128>::None);
    assert(m.insert(k, e1).insert(k, e2) =~= m.insert(k, e2));
}

} // verus!
