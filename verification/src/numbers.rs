//! Verified parsing of decimal numbers from byte and character payloads,
//! with the grammar of Rust's `from_str` for integers: an optional sign,
//! then one or more ASCII digits, nothing else, value in range.

use vstd::prelude::*;
use vstd::string::StrSliceExecFns;

verus! {

/// `b` is an ASCII digit byte.
pub open spec fn is_digit(b: u8) -> bool {
    48 <= b <= 57
}

/// Every byte of `s` is an ASCII digit.
pub open spec fn all_digits(s: Seq<u8>) -> bool {
    forall|i: int| 0 <= i < s.len() ==> is_digit(#[trigger] s[i])
}

/// The value of a digit string, most significant digit first.
pub open spec fn digits_val(s: Seq<u8>) -> int
    decreases s.len(),
{
    if s.len() == 0 {
        0
    } else {
        digits_val(s.drop_last()) * 10 + (s.last() - 48)
    }
}

/// A digit string's value is nonnegative and grows with every digit kept.
pub proof fn lemma_digits_val_bounds(s: Seq<u8>, j: int)
    requires
        all_digits(s),
        0 <= j <= s.len(),
    ensures
        0 <= digits_val(s.take(j)) <= digits_val(s),
    decreases s.len(),
{
    if s.len() == 0 {
    } else if j == s.len() {
        assert(s.take(j) =~= s);
        lemma_digits_val_bounds(s.drop_last(), s.len() - 1);
        assert(s.drop_last().take(s.len() - 1) =~= s.drop_last());
    } else {
        assert(s.drop_last().take(j) =~= s.take(j));
        assert(all_digits(s.drop_last()));
        lemma_digits_val_bounds(s.drop_last(), j);
    }
}

/// The value of a signless nonempty digit string, as an unsigned word-sized
/// number; nothing when a byte is not a digit or the value does not fit.
pub open spec fn spec_parse_usize(s: Seq<u8>) -> Option<usize> {
    let ds = if s.len() > 0 && s[0] == 43 {
        s.drop_first()
    } else {
        s
    };
    if ds.len() > 0 && all_digits(ds) && digits_val(ds) <= usize::MAX {
        Some(digits_val(ds) as usize)
    } else {
        None
    }
}

/// The value of a signed digit string as an `i64`; nothing when malformed or
/// out of range.
pub open spec fn spec_parse_i64(s: Seq<u8>) -> Option<i64> {
    if s.len() > 0 && s[0] == 45 {
        let ds = s.drop_first();
        if ds.len() > 0 && all_digits(ds) && -digits_val(ds) >= i64::MIN {
            Some((-digits_val(ds)) as i64)
        } else {
            None
        }
    } else {
        let ds = if s.len() > 0 && s[0] == 43 {
            s.drop_first()
        } else {
            s
        };
        if ds.len() > 0 && all_digits(ds) && digits_val(ds) <= i64::MAX {
            Some(digits_val(ds) as i64)
        } else {
            None
        }
    }
}

/// Accumulates the value of the digit string `s`, or reports that some byte
/// is not a digit or that the value exceeds `u64::MAX`.
fn digits_to_u64(s: &[u8]) -> (r: Option<u64>)
    ensures
        match r {
            Some(v) => s@.len() > 0 && all_digits(s@) && digits_val(s@) == v,
            None => s@.len() == 0 || !all_digits(s@) || digits_val(s@) > u64::MAX,
        },
{
    if s.len() == 0 {
        return None;
    }
    let mut acc: u64 = 0;
    let mut i: usize = 0;
    while i < s.len()
        invariant
            0 <= i <= s@.len(),
            all_digits(s@.take(i as int)),
            acc == digits_val(s@.take(i as int)),
        decreases s@.len() - i,
    {
        let b = s[i];
        if b < 48 || b > 57 {
            assert(!is_digit(s@[i as int]));
            return None;
        }
        let d: u64 = (b - 48) as u64;
        if acc > (u64::MAX - d) / 10 {
            proof {
                assert(s@.take(i as int + 1).drop_last() =~= s@.take(i as int));
                assert(digits_val(s@.take(i as int + 1)) > u64::MAX);
                if all_digits(s@) {
                    lemma_digits_val_bounds(s@, i as int + 1);
                }
            }
            return None;
        }
        proof {
            assert(s@.take(i as int + 1).drop_last() =~= s@.take(i as int));
        }
        acc = acc * 10 + d;
        i += 1;
    }
    proof {
        assert(s@.take(s@.len() as int) =~= s@);
    }
    Some(acc)
}

/// Parses an unsigned number as `usize::from_str` would: an optional leading
/// `+`, then one or more digits, value at most `usize::MAX`.
pub fn parse_usize(s: &[u8]) -> (r: Option<usize>)
    ensures
        r == spec_parse_usize(s@),
{
    let rest = if s.len() > 0 && s[0] == 43 {
        let r = vstd::slice::slice_subrange(s, 1, s.len());
        assert(r@ =~= s@.drop_first());
        r
    } else {
        s
    };
    match digits_to_u64(rest) {
        Some(v) => {
            if v <= usize::MAX as u64 {
                Some(v as usize)
            } else {
                None
            }
        },
        None => None,
    }
}

/// Parses a signed number as `i64::from_str` would: an optional `+` or `-`,
/// then one or more digits, value within `i64`'s range.
pub fn parse_i64(s: &[u8]) -> (r: Option<i64>)
    ensures
        r == spec_parse_i64(s@),
{
    if s.len() > 0 && s[0] == 45 {
        let rest = vstd::slice::slice_subrange(s, 1, s.len());
        assert(rest@ =~= s@.drop_first());
        match digits_to_u64(rest) {
            Some(v) => {
                // The magnitude of i64::MIN is one above i64::MAX.
                if v <= 9223372036854775808u64 {
                    Some((-((v as i128)) as i64))
                } else {
                    None
                }
            },
            None => None,
        }
    } else {
        let rest = if s.len() > 0 && s[0] == 43 {
            let r = vstd::slice::slice_subrange(s, 1, s.len());
            assert(r@ =~= s@.drop_first());
            r
        } else {
            s
        };
        match digits_to_u64(rest) {
            Some(v) => {
                if v <= i64::MAX as u64 {
                    Some(v as i64)
                } else {
                    None
                }
            },
            None => None,
        }
    }
}

/// `c` is an ASCII digit character.
pub open spec fn is_digit_char(c: char) -> bool {
    48 <= c as u32 <= 57
}

/// Every character of `s` is an ASCII digit.
pub open spec fn all_digit_chars(s: Seq<char>) -> bool {
    forall|i: int| 0 <= i < s.len() ==> is_digit_char(#[trigger] s[i])
}

/// The value of a digit character string, most significant digit first.
pub open spec fn digit_chars_val(s: Seq<char>) -> int
    decreases s.len(),
{
    if s.len() == 0 {
        0
    } else {
        digit_chars_val(s.drop_last()) * 10 + (s.last() as u32 - 48)
    }
}

/// Like `lemma_digits_val_bounds`, for character strings.
pub proof fn lemma_digit_chars_val_bounds(s: Seq<char>, j: int)
    requires
        all_digit_chars(s),
        0 <= j <= s.len(),
    ensures
        0 <= digit_chars_val(s.take(j)) <= digit_chars_val(s),
    decreases s.len(),
{
    if s.len() == 0 {
    } else if j == s.len() {
        assert(s.take(j) =~= s);
        lemma_digit_chars_val_bounds(s.drop_last(), s.len() - 1);
        assert(s.drop_last().take(s.len() - 1) =~= s.drop_last());
    } else {
        assert(s.drop_last().take(j) =~= s.take(j));
        assert(all_digit_chars(s.drop_last()));
        lemma_digit_chars_val_bounds(s.drop_last(), j);
    }
}

/// The value of a character string as a `u128`, with `u128::from_str`'s
/// grammar; nothing when malformed or out of range.
pub open spec fn spec_parse_u128(s: Seq<char>) -> Option<u128> {
    let ds = if s.len() > 0 && s[0] == '+' {
        s.drop_first()
    } else {
        s
    };
    if ds.len() > 0 && all_digit_chars(ds) && digit_chars_val(ds) <= u128::MAX {
        Some(digit_chars_val(ds) as u128)
    } else {
        None
    }
}

/// Accumulates the value of the digit characters of `s` starting at `from`.
fn digit_chars_to_u128(s: &str, from: usize) -> (r: Option<u128>)
    requires
        from <= s@.len(),
    ensures
        match r {
            Some(v) => {
                let ds = s@.skip(from as int);
                ds.len() > 0 && all_digit_chars(ds) && digit_chars_val(ds) == v
            },
            None => {
                let ds = s@.skip(from as int);
                ds.len() == 0 || !all_digit_chars(ds) || digit_chars_val(ds) > u128::MAX
            },
        },
{
    let ghost ds = s@.skip(from as int);
    let n = s.unicode_len();
    if from == n {
        return None;
    }
    let mut acc: u128 = 0;
    let mut i: usize = from;
    while i < n
        invariant
            from <= i <= n == s@.len(),
            ds == s@.skip(from as int),
            all_digit_chars(ds.take(i - from)),
            acc == digit_chars_val(ds.take(i - from)),
        decreases n - i,
    {
        let c = s.get_char(i);
        let u: u32 = c as u32;
        assert(s@[i as int] == ds[i - from]);
        if u < 48 || u > 57 {
            assert(!is_digit_char(ds[i - from]));
            return None;
        }
        let d: u128 = (u - 48) as u128;
        if acc > (u128::MAX - d) / 10 {
            proof {
                assert(ds.take(i - from + 1).drop_last() =~= ds.take(i - from));
                assert(digit_chars_val(ds.take(i - from + 1)) > u128::MAX);
                if all_digit_chars(ds) {
                    lemma_digit_chars_val_bounds(ds, i - from + 1);
                }
            }
            return None;
        }
        proof {
            assert(ds.take(i - from + 1).drop_last() =~= ds.take(i - from));
        }
        acc = acc * 10 + d;
        i += 1;
    }
    proof {
        assert(ds.take(n - from) =~= ds);
    }
    Some(acc)
}

/// Parses an unsigned number from text as `u128::from_str` would: an
/// optional leading `+`, then one or more digits, value within range.
pub fn parse_u128(s: &str) -> (r: Option<u128>)
    ensures
        r == spec_parse_u128(s@),
{
    if s.unicode_len() > 0 && s.get_char(0) as u32 == 43 {
        proof {
            broadcast use vstd::utf8::char_u32_cast;

            assert(s@[0] == '+');
        }
        digit_chars_to_u128(s, 1)
    } else {
        assert(s@.skip(0) =~= s@);
        digit_chars_to_u128(s, 0)
    }
}

} // verus!
