use respkv::data::{InterpretError, RespCommand, RespObj};
use respkv::interpreter::{interpret, interpret_at};
use respkv::store::Store;

fn text(s: &str) -> RespObj {
    RespObj::String(s.to_string())
}

fn cmd(parts: &[&str]) -> RespObj {
    RespObj::Array(parts.iter().map(|p| text(p)).collect())
}

#[test]
fn ping_replies_pong() {
    let mut store = Store::new();
    let r = interpret_at(&cmd(&["PING"]), &mut store, 0).unwrap();
    assert_eq!(r, "+PONG\r\n");
}

#[test]
fn ping_with_argument_echoes_it() {
    let mut store = Store::new();
    let r = interpret_at(&cmd(&["PING", "hello"]), &mut store, 0).unwrap();
    assert_eq!(r, "+PONG hello\r\n");
}

#[test]
fn ping_with_two_arguments_is_bad() {
    let mut store = Store::new();
    let r = interpret_at(&cmd(&["PING", "a", "b"]), &mut store, 0);
    assert_eq!(r, Err(InterpretError::BadArguments));
}

#[test]
fn inline_text_command_works() {
    let mut store = Store::new();
    let r = interpret_at(&text("ping"), &mut store, 0).unwrap();
    assert_eq!(r, "+PONG\r\n");
}

#[test]
fn echo_replies_the_text() {
    let mut store = Store::new();
    let r = interpret_at(&cmd(&["ECHO", "x"]), &mut store, 0).unwrap();
    assert_eq!(r, "+x\r\n");
}

#[test]
fn echo_without_argument_replies_nothing() {
    let mut store = Store::new();
    let r = interpret_at(&cmd(&["ECHO"]), &mut store, 0).unwrap();
    assert_eq!(r, "");
}

#[test]
fn echo_with_integer_argument_is_bad() {
    let mut store = Store::new();
    let obj = RespObj::Array(vec![text("echo"), RespObj::Integer(1)]);
    let r = interpret_at(&obj, &mut store, 0);
    assert_eq!(r, Err(InterpretError::BadArguments));
}

#[test]
fn set_then_get_returns_the_value() {
    let mut store = Store::new();
    let r = interpret_at(&cmd(&["SET", "foo", "bar"]), &mut store, 0).unwrap();
    assert_eq!(r, "+OK\r\n");
    let r = interpret_at(&cmd(&["GET", "foo"]), &mut store, 1).unwrap();
    assert_eq!(r, "+bar\r\n");
}

#[test]
fn get_of_never_set_key_is_nil() {
    let mut store = Store::new();
    let r = interpret_at(&cmd(&["GET", "missing"]), &mut store, 0).unwrap();
    assert_eq!(r, "+(nil)\r\n");
}

#[test]
fn get_on_unexpired_key_is_idempotent() {
    let mut store = Store::new();
    interpret_at(&cmd(&["SET", "k", "v", "EX", "50"]), &mut store, 100).unwrap();
    let first = interpret_at(&cmd(&["GET", "k"]), &mut store, 149).unwrap();
    let second = interpret_at(&cmd(&["GET", "k"]), &mut store, 149).unwrap();
    assert_eq!(first, "+v\r\n");
    assert_eq!(second, "+v\r\n");
}

#[test]
fn zero_expiry_expires_at_once_then_reads_absent() {
    let mut store = Store::new();
    let r = interpret_at(&cmd(&["SET", "foo", "bar", "EX", "0"]), &mut store, 100).unwrap();
    assert_eq!(r, "+OK\r\n");
    let first = interpret_at(&cmd(&["GET", "foo"]), &mut store, 100).unwrap();
    assert_eq!(first, "$-1\r\n");
    let second = interpret_at(&cmd(&["GET", "foo"]), &mut store, 100).unwrap();
    assert_eq!(second, "+(nil)\r\n");
}

#[test]
fn integer_expiry_argument_is_accepted() {
    let mut store = Store::new();
    let obj = RespObj::Array(vec![
        text("set"),
        text("k"),
        text("v"),
        text("px"),
        RespObj::Integer(50),
    ]);
    interpret_at(&obj, &mut store, 100).unwrap();
    assert_eq!(
        interpret_at(&cmd(&["GET", "k"]), &mut store, 149).unwrap(),
        "+v\r\n"
    );
    assert_eq!(
        interpret_at(&cmd(&["GET", "k"]), &mut store, 150).unwrap(),
        "$-1\r\n"
    );
}

#[test]
fn unreadable_expiry_means_no_expiry() {
    let mut store = Store::new();
    interpret_at(&cmd(&["SET", "k", "v", "EX", "abc"]), &mut store, 100).unwrap();
    let r = interpret_at(&cmd(&["GET", "k"]), &mut store, u128::MAX - 1).unwrap();
    assert_eq!(r, "+v\r\n");
}

#[test]
fn set_overwrites_whole_entry() {
    let mut store = Store::new();
    interpret_at(&cmd(&["SET", "k", "old", "EX", "0"]), &mut store, 100).unwrap();
    interpret_at(&cmd(&["SET", "k", "new"]), &mut store, 100).unwrap();
    // The overwrite replaced value and expiry together: no stale expiry.
    let r = interpret_at(&cmd(&["GET", "k"]), &mut store, 1_000_000).unwrap();
    assert_eq!(r, "+new\r\n");
}

#[test]
fn sets_on_distinct_keys_both_persist() {
    let mut store = Store::new();
    interpret_at(&cmd(&["SET", "a", "1"]), &mut store, 0).unwrap();
    interpret_at(&cmd(&["SET", "b", "2"]), &mut store, 0).unwrap();
    assert_eq!(
        interpret_at(&cmd(&["GET", "a"]), &mut store, 1).unwrap(),
        "+1\r\n"
    );
    assert_eq!(
        interpret_at(&cmd(&["GET", "b"]), &mut store, 1).unwrap(),
        "+2\r\n"
    );
}

#[test]
fn command_names_match_case_insensitively() {
    let mut store = Store::new();
    assert_eq!(
        interpret_at(&cmd(&["PiNg"]), &mut store, 0).unwrap(),
        "+PONG\r\n"
    );
    assert_eq!(
        interpret_at(&cmd(&["sEt", "k", "v"]), &mut store, 0).unwrap(),
        "+OK\r\n"
    );
    assert_eq!(
        interpret_at(&cmd(&["get", "k"]), &mut store, 0).unwrap(),
        "+v\r\n"
    );
}

#[test]
fn unknown_command_is_reported_with_its_name() {
    let mut store = Store::new();
    let r = interpret_at(&cmd(&["FLUSH"]), &mut store, 0);
    assert_eq!(r, Err(InterpretError::UnknownCommand("FLUSH".to_string())));
}

#[test]
fn integer_value_heads_no_command() {
    let mut store = Store::new();
    let r = interpret_at(&RespObj::Integer(3), &mut store, 0);
    assert_eq!(r, Err(InterpretError::UnsupportedValue));
}

#[test]
fn empty_array_heads_no_command() {
    let mut store = Store::new();
    let r = interpret_at(&RespObj::Array(vec![]), &mut store, 0);
    assert_eq!(r, Err(InterpretError::UnsupportedValue));
}

#[test]
fn get_needs_exactly_one_key() {
    let mut store = Store::new();
    assert_eq!(
        interpret_at(&cmd(&["GET"]), &mut store, 0),
        Err(InterpretError::BadArguments)
    );
    assert_eq!(
        interpret_at(&cmd(&["GET", "a", "b"]), &mut store, 0),
        Err(InterpretError::BadArguments)
    );
}

#[test]
fn set_needs_two_or_four_arguments() {
    let mut store = Store::new();
    assert_eq!(
        interpret_at(&cmd(&["SET", "k"]), &mut store, 0),
        Err(InterpretError::BadArguments)
    );
    assert_eq!(
        interpret_at(&cmd(&["SET", "k", "v", "EX"]), &mut store, 0),
        Err(InterpretError::BadArguments)
    );
}

#[test]
fn set_key_must_be_text() {
    let mut store = Store::new();
    let obj = RespObj::Array(vec![text("set"), RespObj::Integer(1), text("v")]);
    assert_eq!(
        interpret_at(&obj, &mut store, 0),
        Err(InterpretError::BadArguments)
    );
}

#[test]
fn command_enum_reads_exact_lowercase_names() {
    assert_eq!(RespCommand::from("ping"), Ok(RespCommand::Ping));
    assert_eq!(RespCommand::from("echo"), Ok(RespCommand::Echo));
    assert_eq!(RespCommand::from("get"), Ok(RespCommand::Get));
    assert_eq!(RespCommand::from("set"), Ok(RespCommand::SetValue));
    assert_eq!(
        RespCommand::from("PING"),
        Err(InterpretError::UnknownCommand("PING".to_string()))
    );
}

#[test]
fn store_operations_work_directly() {
    let mut store = Store::new();
    assert!(store.lookup(&"k".to_string()).is_none());
    store.set("k".to_string(), "v".to_string(), Some(7));
    assert_eq!(
        store.lookup(&"k".to_string()),
        Some(("v".to_string(), Some(7)))
    );
    store.remove_key(&"k".to_string());
    assert!(store.lookup(&"k".to_string()).is_none());
}

#[test]
fn wall_clock_interpret_serves_unexpiring_keys() {
    let mut store = Store::new();
    assert_eq!(
        interpret(&cmd(&["SET", "foo", "bar"]), &mut store).unwrap(),
        "+OK\r\n"
    );
    assert_eq!(
        interpret(&cmd(&["GET", "foo"]), &mut store).unwrap(),
        "+bar\r\n"
    );
}

#[test]
fn wall_clock_reads_a_plausible_time() {
    let t = respkv::time::get_millis_since_epoch();
    // Any time after the start of 2020, in milliseconds.
    assert!(t > 1_577_836_800_000);
}

#[test]
fn full_wire_exchange() {
    let mut store = Store::new();
    let set = RespObj::from(b"*3\r\n$3\r\nSET\r\n$3\r\nfoo\r\n$3\r\nbar\r\n").unwrap();
    assert_eq!(interpret_at(&set, &mut store, 0).unwrap(), "+OK\r\n");
    let get = RespObj::from(b"*2\r\n$3\r\nGET\r\n$3\r\nfoo\r\n").unwrap();
    assert_eq!(interpret_at(&get, &mut store, 1).unwrap(), "+bar\r\n");
}
