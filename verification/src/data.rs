//! Protocol values, commands and error kinds, together with their
//! mathematical models.

use vstd::prelude::*;
use crate::text::seq_ci_eq;

verus! {

broadcast use vstd::std_specs::vec::axiom_vec_decreases_to_view, vstd::seq::axiom_seq_index_decreases;

/// A decoded protocol value. Arrays nest; simple strings and bulk strings
/// both decode to `String` (the distinction is framing-only); integers are
/// 64-bit signed.
#[derive(Debug, PartialEq)]
pub enum RespObj {
    Array(Vec<RespObj>),
    String(String),
    Integer(i64),
}

/// The mathematical model of a protocol value: sequences in place of vectors
/// and character sequences in place of strings.
pub enum Value {
    Array(Seq<Value>),
    Text(Seq<char>),
    Int(i64),
}

impl RespObj {
    /// The model of this protocol value.
    pub open spec fn deep(self) -> Value
        decreases self, 0int,
        via Self::deep_decreases
    {
        match self {
            RespObj::Array(items) => Value::Array(deep_rec(items@)),
            RespObj::String(s) => Value::Text(s@),
            RespObj::Integer(i) => Value::Int(i),
        }
    }

    #[via_fn]
    proof fn deep_decreases(self) {
        if let RespObj::Array(items) = self {
            assert(decreases_to!(self => items));
            assert(decreases_to!(items => items@));
        }
    }
}

/// The model of a sequence of protocol values, built back to front.
pub open spec fn deep_rec(s: Seq<RespObj>) -> Seq<Value>
    decreases s, s.len(),
    via deep_rec_decreases
{
    if s.len() == 0 {
        Seq::empty()
    } else {
        deep_rec(s.drop_last()).push(s.last().deep())
    }
}

#[via_fn]
proof fn deep_rec_decreases(s: Seq<RespObj>) {
    if s.len() > 0 {
        vstd::seq::axiom_seq_subrange_decreases(s, 0, s.len() - 1);
        assert(s.drop_last() == s.subrange(0, s.len() - 1));
        vstd::seq::axiom_seq_index_decreases(s, s.len() - 1);
    }
}

/// The model of a sequence of protocol values.
pub open spec fn deep_list(items: Seq<RespObj>) -> Seq<Value> {
    Seq::new(items.len(), |i: int| items[i].deep())
}

/// The back-to-front construction agrees with the pointwise one.
pub broadcast proof fn lemma_deep_rec(s: Seq<RespObj>)
    ensures
        #[trigger] deep_rec(s) == deep_list(s),
    decreases s.len(),
{
    if s.len() > 0 {
        lemma_deep_rec(s.drop_last());
    }
    assert(deep_rec(s) =~= deep_list(s));
}

/// A framing error from the decoder.
#[derive(Debug, Clone, Copy, PartialEq, Eq, Structural)]
pub enum DecodeError {
    /// The buffer is empty or starts with an unknown type tag.
    UnsupportedType,
    /// No terminating carriage return was found.
    UnterminatedFrame,
    /// A payload failed to parse as text or as a number.
    MalformedPayload,
    /// The buffer ends before the frame does.
    Truncated,
}

/// An error from the command interpreter.
#[derive(Debug, Clone, PartialEq)]
pub enum InterpretError {
    /// The top-level value has a shape no command can be read from.
    UnsupportedValue,
    /// The command name (carried here) matches no supported command.
    UnknownCommand(String),
    /// Wrong arity or argument types for a recognized command.
    BadArguments,
    /// The shared store could not be locked; the single request fails.
    StoreUnavailable,
}

/// The mathematical model of an interpreter error.
pub enum CmdError {
    UnsupportedValue,
    UnknownCommand(Seq<char>),
    BadArguments,
    StoreUnavailable,
}

impl InterpretError {
    /// The model of this error.
    pub open spec fn deep(self) -> CmdError {
        match self {
            InterpretError::UnsupportedValue => CmdError::UnsupportedValue,
            InterpretError::UnknownCommand(name) => CmdError::UnknownCommand(name@),
            InterpretError::BadArguments => CmdError::BadArguments,
            InterpretError::StoreUnavailable => CmdError::StoreUnavailable,
        }
    }
}

/// The closed set of supported commands.
#[derive(Debug, Clone, Copy, PartialEq, Eq, Structural)]
pub enum RespCommand {
    Ping,
    Echo,
    Get,
    SetValue,
}

/// The command whose lowercase name `source` is, if any. This is an exact
/// match: callers that accept mixed case compare case-insensitively first
/// (see `spec_command_ci`).
pub open spec fn spec_command(source: Seq<char>) -> Option<RespCommand> {
    if source == "ping"@ {
        Some(RespCommand::Ping)
    } else if source == "echo"@ {
        Some(RespCommand::Echo)
    } else if source == "get"@ {
        Some(RespCommand::Get)
    } else if source == "set"@ {
        Some(RespCommand::SetValue)
    } else {
        None
    }
}

/// The command whose name `source` is up to ASCII case, if any.
pub open spec fn spec_command_ci(source: Seq<char>) -> Option<RespCommand> {
    if seq_ci_eq(source, "ping"@) {
        Some(RespCommand::Ping)
    } else if seq_ci_eq(source, "echo"@) {
        Some(RespCommand::Echo)
    } else if seq_ci_eq(source, "get"@) {
        Some(RespCommand::Get)
    } else if seq_ci_eq(source, "set"@) {
        Some(RespCommand::SetValue)
    } else {
        None
    }
}

impl RespCommand {
    /// Reads a command from its exact lowercase name.
    pub fn from(source: &str) -> (r: Result<RespCommand, InterpretError>)
        ensures
            match r {
                Ok(c) => spec_command(source@) == Some(c),
                Err(e) => spec_command(source@) is None && e.deep()
                    == CmdError::UnknownCommand(source@),
            },
    {
        if crate::text::str_eq(source, "ping") {
            Ok(RespCommand::Ping)
        } else if crate::text::str_eq(source, "echo") {
            Ok(RespCommand::Echo)
        } else if crate::text::str_eq(source, "get") {
            Ok(RespCommand::Get)
        } else if crate::text::str_eq(source, "set") {
            Ok(RespCommand::SetValue)
        } else {
            Err(InterpretError::UnknownCommand(source.to_owned()))
        }
    }
}

} // verus!
