//! The RESP wire decoder: one call consumes exactly one value from the front
//! of a byte buffer and reports how many bytes it spans, so a caller can
//! re-slice a stream at the consumed offset and decode the next value.
//!
//! The executable decoder is proved equal to the specification decoder
//! `spec_parse`, which fixes the framing rules byte by byte: a one-byte type
//! tag (`*` array, `+` simple string, `:` integer, `$` bulk string), a
//! payload delimited by the first carriage return, and a trailing `\r\n`. A
//! buffer that ends before the frame does yields `Truncated`, so a caller
//! reading from a stream can retry once more bytes have arrived.

use vstd::prelude::*;
use vstd::utf8::{valid_utf8, decode_utf8};
use crate::data::{RespObj, Value, DecodeError, deep_list};
use crate::numbers::{spec_parse_usize, spec_parse_i64};

verus! {

broadcast use crate::data::lemma_deep_rec;

/// The index of the first carriage return in `b`, or `b.len()` if none.
pub open spec fn find_cr(b: Seq<u8>) -> int
    decreases b.len(),
{
    if b.len() == 0 {
        0
    } else if b[0] == 13 {
        0
    } else {
        1 + find_cr(b.drop_first())
    }
}

/// What `find_cr` returns: the position of the first carriage return.
pub proof fn lemma_find_cr(b: Seq<u8>)
    ensures
        0 <= find_cr(b) <= b.len(),
        find_cr(b) < b.len() ==> b[find_cr(b)] == 13,
        forall|j: int| 0 <= j < find_cr(b) ==> b[j] != 13,
    decreases b.len(),
{
    if b.len() > 0 && b[0] != 13 {
        lemma_find_cr(b.drop_first());
        assert forall|j: int| 0 <= j < find_cr(b) implies b[j] != 13 by {
            if j > 0 {
                assert(b[j] == b.drop_first()[j - 1]);
            }
        }
    }
}

/// The specification decoder for a simple string frame `+<text>\r\n`.
pub open spec fn spec_parse_text(b: Seq<u8>) -> Result<(Value, int), DecodeError> {
    let p = find_cr(b);
    if p >= b.len() {
        Err(DecodeError::UnterminatedFrame)
    } else if p + 2 > b.len() {
        Err(DecodeError::Truncated)
    } else {
        let payload = b.subrange(1, p);
        if valid_utf8(payload) {
            Ok((Value::Text(decode_utf8(payload)), p + 2))
        } else {
            Err(DecodeError::MalformedPayload)
        }
    }
}

/// The specification decoder for an integer frame `:<digits>\r\n`.
pub open spec fn spec_parse_int(b: Seq<u8>) -> Result<(Value, int), DecodeError> {
    let p = find_cr(b);
    if p >= b.len() {
        Err(DecodeError::UnterminatedFrame)
    } else if p + 2 > b.len() {
        Err(DecodeError::Truncated)
    } else {
        match spec_parse_i64(b.subrange(1, p)) {
            Some(v) => Ok((Value::Int(v), p + 2)),
            None => Err(DecodeError::MalformedPayload),
        }
    }
}

/// The specification decoder for a bulk string frame `$<len>\r\n<bytes>\r\n`.
pub open spec fn spec_parse_bulk(b: Seq<u8>) -> Result<(Value, int), DecodeError> {
    let p = find_cr(b);
    if p >= b.len() {
        Err(DecodeError::UnterminatedFrame)
    } else {
        match spec_parse_usize(b.subrange(1, p)) {
            None => Err(DecodeError::MalformedPayload),
            Some(size) => {
                if p + size + 4 > b.len() {
                    Err(DecodeError::Truncated)
                } else {
                    let content = b.subrange(p + 2, p + 2 + size);
                    if valid_utf8(content) {
                        Ok((Value::Text(decode_utf8(content)), p + size + 4))
                    } else {
                        Err(DecodeError::MalformedPayload)
                    }
                }
            },
        }
    }
}

/// The specification decoder: one value from the front of `b`, with the
/// number of bytes it spans, or the framing error.
pub open spec fn spec_parse(b: Seq<u8>) -> Result<(Value, int), DecodeError>
    decreases b.len(), 2int,
{
    if b.len() == 0 {
        Err(DecodeError::UnsupportedType)
    } else if b[0] == 42 {  // `*`
        spec_parse_array(b)
    } else if b[0] == 43 {  // `+`
        spec_parse_text(b)
    } else if b[0] == 58 {  // `:`
        spec_parse_int(b)
    } else if b[0] == 36 {  // `$`
        spec_parse_bulk(b)
    } else {
        Err(DecodeError::UnsupportedType)
    }
}

/// The specification decoder for an array frame `*<count>\r\n` followed by
/// `count` nested frames.
pub open spec fn spec_parse_array(b: Seq<u8>) -> Result<(Value, int), DecodeError>
    decreases b.len(), 1int,
    via spec_parse_array_decreases
{
    let p = find_cr(b);
    if p >= b.len() {
        Err(DecodeError::UnterminatedFrame)
    } else if p + 2 > b.len() {
        Err(DecodeError::Truncated)
    } else {
        match spec_parse_usize(b.subrange(1, p)) {
            None => Err(DecodeError::MalformedPayload),
            Some(count) => match spec_parse_elems(b.skip(p + 2), count as int) {
                Ok((vs, m)) => Ok((Value::Array(vs), p + 2 + m)),
                Err(e) => Err(e),
            },
        }
    }
}

#[via_fn]
proof fn spec_parse_array_decreases(b: Seq<u8>) {
    lemma_find_cr(b);
}

/// Decodes `count` consecutive frames from the front of `b`, in order.
pub open spec fn spec_parse_elems(b: Seq<u8>, count: int) -> Result<(Seq<Value>, int), DecodeError>
    decreases b.len(), 3int, count,
{
    if count <= 0 {
        Ok((Seq::empty(), 0))
    } else {
        match spec_parse(b) {
            Err(e) => Err(e),
            Ok((v, m)) => {
                if m < 1 || m > b.len() {
                    Err(DecodeError::Truncated)
                } else {
                    match spec_parse_elems(b.skip(m), count - 1) {
                        Err(e) => Err(e),
                        Ok((vs, m2)) => Ok((seq![v] + vs, m + m2)),
                    }
                }
            },
        }
    }
}

/// `r` seen in the model: the decoded object replaced by its model.
pub open spec fn parse_abs(r: Result<(RespObj, usize), DecodeError>) -> Result<
    (Value, int),
    DecodeError,
> {
    match r {
        Ok((o, n)) => Ok((o.deep(), n as int)),
        Err(e) => Err(e),
    }
}

/// Relies on `String::from_utf8` (with `Vec::from` of the slice to build its
/// argument): it returns `Ok` exactly when the bytes are valid UTF-8, and
/// the string is then their UTF-8 decoding.
#[verifier::external_body]
fn bytes_to_string(v: &[u8]) -> (r: Option<String>)
    ensures
        r is Some <==> valid_utf8(v@),
        r matches Some(s) ==> s@ == decode_utf8(v@),
{
    String::from_utf8(v.to_vec()).ok()
}

/// The index of the first carriage return in `buf`, or `buf.len()` if none.
fn cr_position(buf: &[u8]) -> (p: usize)
    ensures
        p == find_cr(buf@),
{
    proof {
        lemma_find_cr(buf@);
    }
    let mut i: usize = 0;
    while i < buf.len()
        invariant
            0 <= i <= buf@.len(),
            forall|j: int| 0 <= j < i ==> buf@[j] != 13,
        decreases buf@.len() - i,
    {
        if buf[i] == 13 {
            proof {
                lemma_find_cr(buf@);
                if find_cr(buf@) < i {
                    assert(buf@[find_cr(buf@)] != 13);
                }
            }
            return i;
        }
        i += 1;
    }
    proof {
        lemma_find_cr(buf@);
        if find_cr(buf@) < buf@.len() {
            assert(buf@[find_cr(buf@)] != 13);
        }
    }
    buf.len()
}

/// Decodes a simple string frame.
fn parse_string(buf: &[u8]) -> (r: Result<(RespObj, usize), DecodeError>)
    requires
        buf@.len() > 0,
        buf@[0] != 13,
    ensures
        parse_abs(r) == spec_parse_text(buf@),
        r matches Ok((o, n)) ==> 1 <= n <= buf@.len(),
{
    let p = cr_position(buf);
    proof {
        lemma_find_cr(buf@);
    }
    if p == buf.len() {
        return Err(DecodeError::UnterminatedFrame);
    }
    if buf.len() - p < 2 {
        return Err(DecodeError::Truncated);
    }
    assert(p >= 1);
    let payload = vstd::slice::slice_subrange(buf, 1, p);
    match bytes_to_string(payload) {
        Some(s) => Ok((RespObj::String(s), p + 2)),
        None => Err(DecodeError::MalformedPayload),
    }
}

/// Decodes an integer frame.
fn parse_integer(buf: &[u8]) -> (r: Result<(RespObj, usize), DecodeError>)
    requires
        buf@.len() > 0,
        buf@[0] != 13,
    ensures
        parse_abs(r) == spec_parse_int(buf@),
        r matches Ok((o, n)) ==> 1 <= n <= buf@.len(),
{
    let p = cr_position(buf);
    proof {
        lemma_find_cr(buf@);
    }
    if p == buf.len() {
        return Err(DecodeError::UnterminatedFrame);
    }
    if buf.len() - p < 2 {
        return Err(DecodeError::Truncated);
    }
    assert(p >= 1);
    let payload = vstd::slice::slice_subrange(buf, 1, p);
    match crate::numbers::parse_i64(payload) {
        Some(v) => Ok((RespObj::Integer(v), p + 2)),
        None => Err(DecodeError::MalformedPayload),
    }
}

/// Decodes a bulk string frame.
fn parse_bulk_string(buf: &[u8]) -> (r: Result<(RespObj, usize), DecodeError>)
    requires
        buf@.len() > 0,
        buf@[0] != 13,
    ensures
        parse_abs(r) == spec_parse_bulk(buf@),
        r matches Ok((o, n)) ==> 1 <= n <= buf@.len(),
{
    let p = cr_position(buf);
    proof {
        lemma_find_cr(buf@);
    }
    if p == buf.len() {
        return Err(DecodeError::UnterminatedFrame);
    }
    assert(p >= 1);
    let len_payload = vstd::slice::slice_subrange(buf, 1, p);
    let size = match crate::numbers::parse_usize(len_payload) {
        Some(size) => size,
        None => {
            return Err(DecodeError::MalformedPayload);
        },
    };
    let avail = buf.len() - p;
    if avail < 4 || size > avail - 4 {
        return Err(DecodeError::Truncated);
    }
    let c_pos = p + 2;
    let content = vstd::slice::slice_subrange(buf, c_pos, c_pos + size);
    match bytes_to_string(content) {
        Some(s) => Ok((RespObj::String(s), c_pos + size + 2)),
        None => Err(DecodeError::MalformedPayload),
    }
}

/// Decodes an array frame: the element count, then that many nested frames.
fn parse_array(buf: &[u8]) -> (r: Result<(RespObj, usize), DecodeError>)
    requires
        buf@.len() > 0,
        buf@[0] != 13,
    ensures
        parse_abs(r) == spec_parse_array(buf@),
        r matches Ok((o, n)) ==> 1 <= n <= buf@.len(),
    decreases buf@.len(), 1int,
{
    let p = cr_position(buf);
    proof {
        lemma_find_cr(buf@);
    }
    if p == buf.len() {
        return Err(DecodeError::UnterminatedFrame);
    }
    if buf.len() - p < 2 {
        return Err(DecodeError::Truncated);
    }
    assert(p >= 1);
    let len_payload = vstd::slice::slice_subrange(buf, 1, p);
    let count = match crate::numbers::parse_usize(len_payload) {
        Some(count) => count,
        None => {
            return Err(DecodeError::MalformedPayload);
        },
    };
    let mut res: Vec<RespObj> = Vec::new();
    let mut i: usize = p + 2;
    let mut k: usize = 0;
    proof {
        if let Ok((vs, m)) = spec_parse_elems(buf@.skip(p + 2), count as int) {
            assert(deep_list(res@) + vs =~= vs);
        }
    }
    while k < count
        invariant
            buf@.len() > 0,
            1 <= p,
            p == find_cr(buf@),
            p + 2 <= i <= buf@.len(),
            spec_parse_usize(buf@.subrange(1, p as int)) == Some(count),
            k <= count,
            res@.len() == k,
            spec_parse_elems(buf@.skip(p + 2), count as int) == (match spec_parse_elems(
                buf@.skip(i as int),
                count - k,
            ) {
                Ok((vs, m)) => Ok::<(Seq<Value>, int), DecodeError>(
                    (deep_list(res@) + vs, (i - (p + 2)) + m),
                ),
                Err(e) => Err(e),
            }),
        decreases count - k,
    {
        let ghost prev_res = res@;
        let ghost prev_i = i as int;
        let sub = vstd::slice::slice_subrange(buf, i, buf.len());
        assert(sub@ =~= buf@.skip(i as int));
        let (obj, m) = match parse(sub) {
            Ok(pair) => pair,
            Err(e) => {
                return Err(e);
            },
        };
        res.push(obj);
        i += m;
        k += 1;
        proof {
            assert(buf@.skip(prev_i).skip(m as int) =~= buf@.skip(i as int));
            assert(deep_list(res@) =~= deep_list(prev_res).push(obj.deep()));
            if let Ok((vs2, m2)) = spec_parse_elems(buf@.skip(i as int), count - k) {
                assert(deep_list(prev_res) + (seq![obj.deep()] + vs2) =~= deep_list(res@) + vs2);
            }
        }
    }
    proof {
        assert(spec_parse_elems(buf@.skip(i as int), 0) == Ok::<(Seq<Value>, int), DecodeError>(
            (Seq::empty(), 0),
        ));
        assert(deep_list(res@) + Seq::<Value>::empty() =~= deep_list(res@));
        assert(spec_parse_elems(buf@.skip(p + 2), count as int) == Ok::<
            (Seq<Value>, int),
            DecodeError,
        >((deep_list(res@), i - (p + 2))));
        crate::data::lemma_deep_rec(res@);
        assert(RespObj::Array(res).deep() == Value::Array(deep_list(res@)));
        assert(spec_parse_array(buf@) == Ok::<(Value, int), DecodeError>(
            (Value::Array(deep_list(res@)), i as int),
        ));
    }
    Ok((RespObj::Array(res), i))
}

/// Decodes exactly one protocol value from the front of `buf` and returns it
/// with the number of bytes it spans; equal, in the model, to `spec_parse`.
pub fn parse(buf: &[u8]) -> (r: Result<(RespObj, usize), DecodeError>)
    ensures
        parse_abs(r) == spec_parse(buf@),
        r matches Ok((o, n)) ==> 1 <= n <= buf@.len(),
    decreases buf@.len(), 2int,
{
    if buf.len() == 0 {
        return Err(DecodeError::UnsupportedType);
    }
    let tag = buf[0];
    if tag == 42 {
        parse_array(buf)
    } else if tag == 43 {
        parse_string(buf)
    } else if tag == 58 {
        parse_integer(buf)
    } else if tag == 36 {
        parse_bulk_string(buf)
    } else {
        Err(DecodeError::UnsupportedType)
    }
}

impl RespObj {
    /// Decodes the first protocol value of `buf`, dropping the consumed count.
    pub fn from(buf: &[u8]) -> (r: Result<RespObj, DecodeError>)
        ensures
            match (r, spec_parse(buf@)) {
                (Ok(o), Ok((v, _))) => o.deep() == v,
                (Err(e1), Err(e2)) => e1 == e2,
                _ => false,
            },
    {
        match parse(buf) {
            Ok((obj, _)) => Ok(obj),
            Err(e) => Err(e),
        }
    }
}

} // verus!
