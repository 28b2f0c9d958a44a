//! Reading a message identifier from text.
//!
//! An identifier is written in decimal: an optional `+` or `-`, then one or
//! more of the digits `0` to `9`, denoting a number that a signed 64-bit
//! integer can hold. Nothing else is an identifier: no blanks, no separators,
//! no empty text, no sign alone.

use vstd::prelude::*;
use vstd::string::StrSliceExecFns;
use vstd::utf8::is_ascii_chars;

verus! {

/// The bytes that stand for `-`, `+`, `0` and `9` in a text.
const MINUS: u8 = 45;

const PLUS: u8 = 43;

const ZERO: u8 = 48;

const NINE: u8 = 57;

/// Whether `c` is one of the ten decimal digits.
pub open spec fn is_digit(c: char) -> bool {
    '0' <= c <= '9'
}

/// The number that the digit `c` stands for.
pub open spec fn digit_value(c: char) -> int {
    c as int - '0' as int
}

/// Whether `s` holds decimal digits only.
pub open spec fn all_digits(s: Seq<char>) -> bool {
    forall|i: int| 0 <= i < s.len() ==> is_digit(#[trigger] s[i])
}

/// The number that a run of decimal digits denotes; the empty run denotes 0.
pub open spec fn decimal_value(digits: Seq<char>) -> int
    decreases digits.len(),
{
    if digits.len() == 0 {
        0
    } else {
        decimal_value(digits.drop_last()) * 10 + digit_value(digits.last())
    }
}

/// Whether `text` opens with a sign.
pub open spec fn is_signed(text: Seq<char>) -> bool {
    text.len() > 0 && (text[0] == '-' || text[0] == '+')
}

/// What follows the sign, or all of `text` where it has none.
pub open spec fn digits_of(text: Seq<char>) -> Seq<char> {
    if is_signed(text) {
        text.subrange(1, text.len() as int)
    } else {
        text
    }
}

/// The number that `text` denotes if its digits are read as decimal, with
/// the sign applied.
pub open spec fn signed_value(text: Seq<char>) -> int {
    if text.len() > 0 && text[0] == '-' {
        -decimal_value(digits_of(text))
    } else {
        decimal_value(digits_of(text))
    }
}

/// The identifier that `text` denotes, if it denotes one.
pub open spec fn id_of(text: Seq<char>) -> Option<int> {
    if digits_of(text).len() > 0 && all_digits(digits_of(text)) && i64::MIN <= signed_value(text)
        <= i64::MAX {
        Some(signed_value(text))
    } else {
        None
    }
}

/// A run of digits denotes at least what any of its prefixes denotes.
proof fn lemma_prefix_value(digits: Seq<char>, k: int)
    requires
        all_digits(digits),
        0 <= k <= digits.len(),
    ensures
        0 <= decimal_value(digits.subrange(0, k)) <= decimal_value(digits),
    decreases digits.len() - k,
{
    if k == digits.len() {
        assert(digits.subrange(0, k) =~= digits);
        lemma_value_nonnegative(digits);
    } else {
        lemma_prefix_value(digits, k + 1);
        let longer = digits.subrange(0, k + 1);
        assert(longer.drop_last() =~= digits.subrange(0, k));
        assert(is_digit(digits[k]));
        assert(longer.last() == digits[k]);
        lemma_value_nonnegative(digits.subrange(0, k));
    }
}

/// A run of digits denotes no negative number.
proof fn lemma_value_nonnegative(digits: Seq<char>)
    requires
        all_digits(digits),
    ensures
        0 <= decimal_value(digits),
    decreases digits.len(),
{
    if digits.len() > 0 {
        lemma_value_nonnegative(digits.drop_last());
        assert(is_digit(digits.last()));
    }
}

/// Reads `text` as a message identifier.
///
/// Returns the identifier exactly when `text` denotes one, and `None` for
/// every other text.
pub fn parse_id(text: &str) -> (id: Option<i64>)
    ensures
        match id {
            Some(value) => id_of(text@) == Some(value as int),
            None => id_of(text@) is None,
        },
{
    if !text.is_ascii() {
        proof {
            let chars = text@;
            let i = choose|i: int|
                0 <= i < chars.len() && !('\0' <= (#[trigger] chars[i]) && chars[i] <= '\u{7f}');
            if is_signed(chars) {
                assert(digits_of(chars)[i - 1] == chars[i]);
            } else {
                assert(digits_of(chars)[i] == chars[i]);
            }
        }
        return None;
    }
    let bytes = text.as_bytes();
    let n: usize = bytes.len();
    proof {
        vstd::utf8::is_ascii_chars_encode_utf8(text@);
    }
    if n == 0 {
        return None;
    }
    let negative: bool = bytes[0] == MINUS;
    let start: usize = if negative || bytes[0] == PLUS {
        1
    } else {
        0
    };
    let ghost digits = digits_of(text@);
    assert(is_signed(text@) <==> start == 1);
    assert(digits.len() == n - start);
    if start == n {
        return None;
    }
    let limit: u64 = if negative {
        0x8000_0000_0000_0000u64
    } else {
        0x7fff_ffff_ffff_ffffu64
    };
    let mut magnitude: u64 = 0;
    let mut i: usize = start;
    while i < n
        invariant
            start <= i <= n,
            n == bytes@.len(),
            n == text@.len(),
            is_ascii_chars(text@),
            forall|j: int| 0 <= j < n ==> text@[j] as u8 == #[trigger] bytes@[j],
            digits == digits_of(text@),
            digits.len() == n - start,
            forall|j: int| 0 <= j < digits.len() ==> digits[j] == text@[j + start],
            all_digits(digits.subrange(0, i - start)),
            magnitude == decimal_value(digits.subrange(0, i - start)),
            magnitude <= limit,
            negative <==> text@[0] == '-',
            limit == if negative {
                0x8000_0000_0000_0000u64
            } else {
                0x7fff_ffff_ffff_ffffu64
            },
        decreases n - i,
    {
        let b: u8 = bytes[i];
        let ghost c: char = text@[i as int];
        assert(digits[i - start] == c);
        if b < ZERO || b > NINE {
            return None;
        }
        let d: u64 = (b - ZERO) as u64;
        let ghost longer = digits.subrange(0, i - start + 1);
        assert(longer.drop_last() =~= digits.subrange(0, i - start));
        assert(longer.last() == c);
        assert(all_digits(longer)) by {
            assert forall|j: int| 0 <= j < longer.len() implies is_digit(#[trigger] longer[j]) by {
                if j < i - start {
                    assert(digits.subrange(0, i - start)[j] == longer[j]);
                }
            }
        }
        assert(decimal_value(longer) == magnitude * 10 + d);
        if magnitude > (limit - d) / 10 {
            proof {
                if all_digits(digits) {
                    lemma_prefix_value(digits, i - start + 1);
                }
            }
            return None;
        }
        magnitude = magnitude * 10 + d;
        i = i + 1;
    }
    assert(digits.subrange(0, i - start) =~= digits);
    if negative {
        if magnitude == 0x8000_0000_0000_0000u64 {
            Some(i64::MIN)
        } else {
            Some(-(magnitude as i64))
        }
    } else {
        Some(magnitude as i64)
    }
}

} // verus!
