//! Reply formatting: every reply the interpreter sends is either a simple
//! string frame `+<text>\r\n` or one of two literal nil markers. The two nil
//! replies differ on purpose: `+(nil)\r\n` answers a key that was never set,
//! `$-1\r\n` a key that has just expired.

use vstd::prelude::*;
use vstd::string::StringExecFns;

verus! {

/// A simple-string reply framing `s`.
pub open spec fn simple_reply(s: Seq<char>) -> Seq<char> {
    seq!['+'] + s + seq!['\r', '\n']
}

/// The reply to a successful SET.
pub open spec fn ok_reply() -> Seq<char> {
    simple_reply(seq!['O', 'K'])
}

/// The reply to GET on a key that was never set (or already deleted).
pub open spec fn nil_reply() -> Seq<char> {
    simple_reply(seq!['(', 'n', 'i', 'l', ')'])
}

/// The reply to GET on a key found expired, removed by that same GET.
pub open spec fn expired_reply() -> Seq<char> {
    seq!['$', '-', '1', '\r', '\n']
}

/// The reply to PING without an argument.
pub open spec fn pong_reply() -> Seq<char> {
    simple_reply(seq!['P', 'O', 'N', 'G'])
}

/// The reply to PING with an argument.
pub open spec fn pong_reply_with(s: Seq<char>) -> Seq<char> {
    simple_reply(seq!['P', 'O', 'N', 'G', ' '] + s)
}

/// Builds the simple-string reply around `s`.
pub fn format_simple(s: &str) -> (r: String)
    ensures
        r@ == simple_reply(s@),
{
    proof {
        reveal_strlit("+");
        reveal_strlit("\r\n");
    }
    let r = "+".to_owned().concat(s).concat("\r\n");
    proof {
        assert(r@ =~= simple_reply(s@));
    }
    r
}

/// Builds the SET acknowledgment.
pub fn format_ok() -> (r: String)
    ensures
        r@ == ok_reply(),
{
    proof {
        reveal_strlit("+OK\r\n");
    }
    let r = "+OK\r\n".to_owned();
    proof {
        assert(r@ =~= ok_reply());
    }
    r
}

/// Builds the never-set nil reply.
pub fn format_nil() -> (r: String)
    ensures
        r@ == nil_reply(),
{
    proof {
        reveal_strlit("+(nil)\r\n");
    }
    let r = "+(nil)\r\n".to_owned();
    proof {
        assert(r@ =~= nil_reply());
    }
    r
}

/// Builds the expired nil reply.
pub fn format_expired() -> (r: String)
    ensures
        r@ == expired_reply(),
{
    proof {
        reveal_strlit("$-1\r\n");
    }
    let r = "$-1\r\n".to_owned();
    proof {
        assert(r@ =~= expired_reply());
    }
    r
}

/// Builds the bare PONG reply.
pub fn format_pong() -> (r: String)
    ensures
        r@ == pong_reply(),
{
    proof {
        reveal_strlit("+PONG\r\n");
    }
    let r = "+PONG\r\n".to_owned();
    proof {
        assert(r@ =~= pong_reply());
    }
    r
}

/// Builds the PONG reply echoing `s`.
pub fn format_pong_with(s: &str) -> (r: String)
    ensures
        r@ == pong_reply_with(s@),
{
    proof {
        reveal_strlit("+PONG ");
        reveal_strlit("\r\n");
    }
    let r = "+PONG ".to_owned().concat(s).concat("\r\n");
    proof {
        assert(r@ =~= pong_reply_with(s@));
    }
    r
}

} // verus!
