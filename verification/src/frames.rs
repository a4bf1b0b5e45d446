//! Well-formed frames and the decoder-correctness theorems. A frame is a
//! byte string that decodes, on its own, to one value consuming every byte.
//! The theorems say the decoder reads nothing past the bytes it consumes: a
//! buffer that begins with a frame decodes to that frame's value whatever
//! follows, a count header followed by frames back to back decodes to the
//! array of their values, and the reply formatter's output decodes back to
//! the text it framed. Together these let a caller decode a stream of frames
//! one call at a time, re-slicing at each consumed offset.

use vstd::prelude::*;
use vstd::utf8::{
    valid_utf8,
    decode_utf8,
    encode_utf8,
    encode_scalar,
    has_width_1_encoding,
    has_width_2_encoding,
    has_width_3_encoding,
    leading_byte_width_1,
    leading_byte_width_2,
    leading_byte_width_3,
    leading_byte_width_4,
    last_continuation_byte,
    second_last_continuation_byte,
    third_last_continuation_byte,
    char_is_scalar,
    char_u32_cast,
    is_ascii_chars,
    is_ascii_chars_encode_utf8,
    encode_utf8_valid_utf8,
    encode_utf8_decode_utf8,
};
use crate::data::{Value, DecodeError};
use crate::parser::{find_cr, lemma_find_cr, spec_parse, spec_parse_elems};
use crate::numbers::spec_parse_usize;
use crate::reply::simple_reply;

verus! {

/// `b` is exactly one well-formed frame denoting `v`: alone, it decodes to
/// `v` and every one of its bytes is consumed.
pub open spec fn is_frame(b: Seq<u8>, v: Value) -> bool {
    spec_parse(b) == Ok::<(Value, int), DecodeError>((v, b.len() as int))
}

/// `b` is a simple-string frame `+<payload>\r\n` whose text is `s`.
pub open spec fn is_simple_frame(b: Seq<u8>, s: Seq<char>) -> bool {
    &&& b.len() >= 3
    &&& b[0] == 43
    &&& b[b.len() - 2] == 13
    &&& b[b.len() - 1] == 10
    &&& (forall|j: int| 1 <= j < b.len() - 2 ==> b[j] != 13)
    &&& valid_utf8(b.subrange(1, b.len() - 2))
    &&& s == decode_utf8(b.subrange(1, b.len() - 2))
}

/// The frames of `fs`, back to back, in order.
pub open spec fn concat_frames(fs: Seq<Seq<u8>>) -> Seq<u8>
    decreases fs.len(),
{
    if fs.len() == 0 {
        Seq::empty()
    } else {
        fs[0] + concat_frames(fs.drop_first())
    }
}

/// `find_cr` finds exactly the position whose earlier bytes are all other
/// than a carriage return and which holds one.
pub proof fn lemma_find_cr_at(b: Seq<u8>, p: int)
    requires
        0 <= p < b.len(),
        b[p] == 13,
        forall|j: int| 0 <= j < p ==> b[j] != 13,
    ensures
        find_cr(b) == p,
{
    lemma_find_cr(b);
    if find_cr(b) < p {
        assert(b[find_cr(b)] == 13);
        assert(false);
    }
    if find_cr(b) > p {
        assert(b[p] != 13);
        assert(false);
    }
}

/// On success the element decoder consumes no more than the buffer holds,
/// and returns one value per expected element.
pub proof fn lemma_parse_elems_bounds(b: Seq<u8>, count: int)
    requires
        spec_parse_elems(b, count) is Ok,
    ensures
        0 <= spec_parse_elems(b, count)->Ok_0.1 <= b.len(),
        spec_parse_elems(b, count)->Ok_0.0.len() == if count <= 0 {
            0int
        } else {
            count
        },
    decreases b.len(), 1int,
{
    if count > 0 {
        let m = spec_parse(b)->Ok_0.1;
        lemma_parse_elems_bounds(b.skip(m), count - 1);
    }
}

/// The decoder reads nothing past the bytes it consumes: a buffer agreeing
/// with `b` on the bytes one successful decode of `b` consumes, and at least
/// that long, decodes to the same value and consumed count.
pub proof fn lemma_parse_prefix(b: Seq<u8>, c: Seq<u8>)
    requires
        spec_parse(b) is Ok,
        c.len() >= spec_parse(b)->Ok_0.1,
        forall|j: int| 0 <= j < spec_parse(b)->Ok_0.1 ==> c[j] == b[j],
    ensures
        spec_parse(c) == spec_parse(b),
    decreases b.len(), 0int,
{
    reveal_with_fuel(spec_parse, 3);
    reveal_with_fuel(crate::parser::spec_parse_array, 3);
    let n = spec_parse(b)->Ok_0.1;
    lemma_find_cr(b);
    let p = find_cr(b);
    if b[0] == 42 {
        // Array: the count header, then the elements.
        let count = spec_parse_usize(b.subrange(1, p))->0;
        let inner = spec_parse_elems(b.skip(p + 2), count as int);
        let m = inner->Ok_0.1;
        assert(n == p + 2 + m);
        lemma_parse_elems_bounds(b.skip(p + 2), count as int);
        lemma_find_cr_at(c, p);
        assert(c.subrange(1, p) =~= b.subrange(1, p));
        assert forall|j: int| 0 <= j < m implies #[trigger] c.skip(p + 2)[j] == b.skip(p + 2)[j] by {
            assert(c[p + 2 + j] == b[p + 2 + j]);
        }
        lemma_parse_elems_prefix(b.skip(p + 2), c.skip(p + 2), count as int);
    } else if b[0] == 43 || b[0] == 58 {
        // Simple string or integer: the payload up to the carriage return.
        lemma_find_cr_at(c, p);
        assert(c.subrange(1, p) =~= b.subrange(1, p));
    } else if b[0] == 36 {
        // Bulk string: the length payload, then the sized content.
        lemma_find_cr_at(c, p);
        assert(c.subrange(1, p) =~= b.subrange(1, p));
        let size = spec_parse_usize(b.subrange(1, p))->0;
        assert(c.subrange(p + 2, p + 2 + size) =~= b.subrange(p + 2, p + 2 + size));
    }
}

/// `lemma_parse_prefix`, for a row of elements.
pub proof fn lemma_parse_elems_prefix(b: Seq<u8>, c: Seq<u8>, count: int)
    requires
        spec_parse_elems(b, count) is Ok,
        c.len() >= spec_parse_elems(b, count)->Ok_0.1,
        forall|j: int| 0 <= j < spec_parse_elems(b, count)->Ok_0.1 ==> c[j] == b[j],
    ensures
        spec_parse_elems(c, count) == spec_parse_elems(b, count),
    decreases b.len(), 2int,
{
    if count > 0 {
        let m0 = spec_parse(b)->Ok_0.1;
        let tail = spec_parse_elems(b.skip(m0), count - 1);
        lemma_parse_elems_bounds(b.skip(m0), count - 1);
        lemma_parse_prefix(b, c);
        assert forall|j: int| 0 <= j < tail->Ok_0.1 implies #[trigger] c.skip(m0)[j] == b.skip(m0)[j] by {
            assert(c[m0 + j] == b[m0 + j]);
        }
        lemma_parse_elems_prefix(b.skip(m0), c.skip(m0), count - 1);
    }
}

/// Decoding a buffer that begins with a well-formed frame succeeds, returns
/// the frame's value, and consumes exactly the frame — whatever follows.
pub proof fn lemma_parse_frame(b: Seq<u8>, v: Value, rest: Seq<u8>)
    requires
        is_frame(b, v),
    ensures
        spec_parse(b + rest) == Ok::<(Value, int), DecodeError>((v, b.len() as int)),
{
    assert forall|j: int| 0 <= j < b.len() implies (b + rest)[j] == b[j] by {}
    lemma_parse_prefix(b, b + rest);
}

/// Frames back to back decode to all their values in their original order,
/// consuming exactly the frames.
pub proof fn lemma_frames_compose(fs: Seq<Seq<u8>>, vs: Seq<Value>, rest: Seq<u8>)
    requires
        fs.len() == vs.len(),
        forall|i: int| 0 <= i < fs.len() ==> is_frame(#[trigger] fs[i], vs[i]),
    ensures
        spec_parse_elems(concat_frames(fs) + rest, vs.len() as int) == Ok::<
            (Seq<Value>, int),
            DecodeError,
        >((vs, concat_frames(fs).len() as int)),
    decreases fs.len(),
{
    if fs.len() == 0 {
        assert(concat_frames(fs) + rest =~= rest);
        assert(vs =~= Seq::<Value>::empty());
    } else {
        let b0 = fs[0];
        let whole = concat_frames(fs) + rest;
        assert(b0.len() >= 1) by {
            if b0.len() == 0 {
                assert(spec_parse(b0) is Err);
            }
        }
        assert forall|j: int| 0 <= j < b0.len() implies whole[j] == b0[j] by {}
        lemma_parse_prefix(b0, whole);
        assert(whole.skip(b0.len() as int) =~= concat_frames(fs.drop_first()) + rest);
        lemma_frames_compose(fs.drop_first(), vs.drop_first(), rest);
        assert(seq![vs[0]] + vs.drop_first() =~= vs);
    }
}

/// Law: every byte buffer that is a well-formed array frame — a `*` tag, a
/// count payload naming `N`, the terminating `\r\n`, then `N` well-formed
/// element frames back to back — decodes to exactly those `N` values in
/// their original order and consumes exactly the bytes spanning the outer
/// frame, whatever bytes follow it.
pub proof fn lemma_array_frame_decodes(
    header: Seq<u8>,
    fs: Seq<Seq<u8>>,
    vs: Seq<Value>,
    rest: Seq<u8>,
)
    requires
        header.len() >= 4,
        header[0] == 42,
        header[header.len() - 2] == 13,
        header[header.len() - 1] == 10,
        forall|j: int| 1 <= j < header.len() - 2 ==> header[j] != 13,
        vs.len() <= usize::MAX,
        spec_parse_usize(header.subrange(1, header.len() - 2)) == Some(vs.len() as usize),
        fs.len() == vs.len(),
        forall|i: int| 0 <= i < fs.len() ==> is_frame(#[trigger] fs[i], vs[i]),
    ensures
        spec_parse(header + concat_frames(fs) + rest) == Ok::<(Value, int), DecodeError>(
            (Value::Array(vs), header.len() + concat_frames(fs).len() as int),
        ),
{
    let t = header + concat_frames(fs) + rest;
    let p = header.len() - 2;
    assert forall|j: int| 0 <= j < header.len() implies t[j] == header[j] by {}
    lemma_find_cr_at(t, p);
    assert(t.subrange(1, p) =~= header.subrange(1, p));
    assert(t.skip(p + 2) =~= concat_frames(fs) + rest);
    lemma_frames_compose(fs, vs, rest);
}

/// A simple-string frame decodes to its payload's text and consumes exactly
/// the frame, whatever bytes follow.
pub proof fn lemma_simple_frame_parses(b: Seq<u8>, s: Seq<char>, rest: Seq<u8>)
    requires
        is_simple_frame(b, s),
    ensures
        spec_parse(b + rest) == Ok::<(Value, int), DecodeError>((Value::Text(s), b.len() as int)),
        is_frame(b, Value::Text(s)),
{
    let t = b + rest;
    assert forall|j: int| 0 <= j < b.len() implies t[j] == b[j] by {}
    lemma_find_cr_at(t, b.len() - 2);
    assert(t.subrange(1, b.len() - 2) =~= b.subrange(1, b.len() - 2));
    lemma_find_cr_at(b, b.len() - 2);
    assert(b.subrange(0, b.len() as int) =~= b);
}

/// UTF-8 encoding distributes over concatenation.
pub proof fn lemma_encode_concat(a: Seq<char>, c: Seq<char>)
    ensures
        encode_utf8(a + c) == encode_utf8(a) + encode_utf8(c),
    decreases a.len(),
{
    if a.len() == 0 {
        assert(a + c =~= c);
        assert(encode_utf8(a) + encode_utf8(c) =~= encode_utf8(c));
    } else {
        assert((a + c).drop_first() =~= a.drop_first() + c);
        lemma_encode_concat(a.drop_first(), c);
        assert((a + c)[0] == a[0]);
        assert(encode_utf8(a + c) =~= encode_utf8(a) + encode_utf8(c));
    }
}

/// The UTF-8 encoding of a text without carriage returns holds no carriage
/// return byte: ASCII characters keep their own byte, and every byte of a
/// longer encoding has its high bit set.
pub proof fn lemma_encode_no_cr(s: Seq<char>)
    requires
        forall|i: int| 0 <= i < s.len() ==> s[i] != '\r',
    ensures
        forall|j: int| 0 <= j < encode_utf8(s).len() ==> encode_utf8(s)[j] != 13,
    decreases s.len(),
{
    if s.len() > 0 {
        char_is_scalar(s[0]);
        let c = s[0] as u32;
        assert(c != 13) by {
            char_u32_cast(s[0], c);
            char_u32_cast('\r', 13);
            if c == 13 {
                assert(s[0] == '\r');
            }
        }
        if has_width_1_encoding(c) {
            assert(leading_byte_width_1(c) != 13) by (bit_vector)
                requires
                    has_width_1_encoding(c) && c != 13,
            ;
        }
        assert(leading_byte_width_2(c) != 13) by (bit_vector);
        assert(leading_byte_width_3(c) != 13) by (bit_vector);
        assert(leading_byte_width_4(c) != 13) by (bit_vector);
        assert(last_continuation_byte(c) != 13) by (bit_vector);
        assert(second_last_continuation_byte(c) != 13) by (bit_vector);
        assert(third_last_continuation_byte(c) != 13) by (bit_vector);
        assert forall|j: int| 0 <= j < encode_scalar(c).len() implies encode_scalar(c)[j] != 13 by {
            if has_width_1_encoding(c) {
            } else if has_width_2_encoding(c) {
            } else if has_width_3_encoding(c) {
            }
        }
        lemma_encode_no_cr(s.drop_first());
        assert forall|j: int| 0 <= j < encode_utf8(s).len() implies encode_utf8(s)[j] != 13 by {
            if j >= encode_scalar(c).len() {
                assert(encode_utf8(s)[j] == encode_utf8(s.drop_first())[j - encode_scalar(
                    c,
                ).len()]);
            }
        }
    }
}

/// The reply formatter's output is a well-formed simple-string frame for the
/// text it framed, provided the text has no carriage return.
pub proof fn lemma_reply_is_frame(s: Seq<char>)
    requires
        forall|i: int| 0 <= i < s.len() ==> s[i] != '\r',
    ensures
        is_simple_frame(encode_utf8(simple_reply(s)), s),
{
    broadcast use encode_utf8_valid_utf8, encode_utf8_decode_utf8;

    let head = seq!['+'];
    let tail = seq!['\r', '\n'];
    assert(simple_reply(s) =~= (head + s) + tail);
    lemma_encode_concat(head + s, tail);
    lemma_encode_concat(head, s);
    assert(is_ascii_chars(head));
    assert(is_ascii_chars(tail));
    is_ascii_chars_encode_utf8(head);
    is_ascii_chars_encode_utf8(tail);
    let b = encode_utf8(simple_reply(s));
    let es = encode_utf8(s);
    assert(encode_utf8(head) =~= seq![43u8]) by {
        assert(encode_utf8(head)[0] == '+' as u8);
    }
    assert(encode_utf8(tail) =~= seq![13u8, 10u8]) by {
        assert(encode_utf8(tail)[0] == '\r' as u8);
        assert(encode_utf8(tail)[1] == '\n' as u8);
    }
    assert(b =~= seq![43u8] + es + seq![13u8, 10u8]);
    lemma_encode_no_cr(s);
    assert(b.subrange(1, b.len() - 2) =~= es);
}

/// Law: the round trip from a reply back to its value. Encoding a text as
/// the simple-string reply and decoding those bytes — alone or at the front
/// of further input — yields the original text back and consumes the whole
/// reply. A text holding a carriage return is left out: it cannot ride in a
/// terminator-delimited frame.
pub proof fn lemma_reply_roundtrip(s: Seq<char>, rest: Seq<u8>)
    requires
        forall|i: int| 0 <= i < s.len() ==> s[i] != '\r',
    ensures
        ({
            let b = encode_utf8(simple_reply(s));
            spec_parse(b + rest) == Ok::<(Value, int), DecodeError>(
                (Value::Text(s), b.len() as int),
            )
        }),
{
    lemma_reply_is_frame(s);
    lemma_simple_frame_parses(encode_utf8(simple_reply(s)), s, rest);
}

} // verus!
