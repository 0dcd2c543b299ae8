//! Reading a decimal integer from text: an optional sign, then one or more
//! digits `0` to `9`, and a value that fits 64 bits.

use vstd::prelude::*;
use vstd::string::is_ascii_spec_bytes;

verus! {

/// `c` is one of the ten ASCII digits.
pub open spec fn is_digit(c: char) -> bool {
    '0' <= c <= '9'
}

/// The value of a digit.
pub open spec fn digit_value(c: char) -> int {
    c as int - 48
}

/// Every character of `s` is a digit.
pub open spec fn all_digits(s: Seq<char>) -> bool {
    forall|i: int| 0 <= i < s.len() ==> is_digit(#[trigger] s[i])
}

/// The number that a run of digits writes, most significant digit first.
pub open spec fn decimal_value(digits: Seq<char>) -> int
    decreases digits.len(),
{
    if digits.len() == 0 {
        0
    } else {
        10 * decimal_value(digits.drop_last()) + digit_value(digits.last())
    }
}

/// The text starts with a sign, `+` or `-`.
pub open spec fn has_sign(text: Seq<char>) -> bool {
    text.len() > 0 && (text[0] == '+' || text[0] == '-')
}

/// The text starts with `-`.
pub open spec fn is_negative(text: Seq<char>) -> bool {
    text.len() > 0 && text[0] == '-'
}

/// The text without its leading sign, if it has one.
pub open spec fn unsigned_part(text: Seq<char>) -> Seq<char> {
    if has_sign(text) {
        text.subrange(1, text.len() as int)
    } else {
        text
    }
}

/// The integer that a sign and a run of digits write.
pub open spec fn signed_value(text: Seq<char>) -> int {
    if is_negative(text) {
        -decimal_value(unsigned_part(text))
    } else {
        decimal_value(unsigned_part(text))
    }
}

/// The integer that `text` writes, if it writes one that fits an `i64`: an
/// optional sign, then at least one digit and nothing else.
pub open spec fn parse_integer(text: Seq<char>) -> Option<i64> {
    let digits = unsigned_part(text);
    if digits.len() > 0 && all_digits(digits) && i64::MIN <= signed_value(text) <= i64::MAX {
        Some(signed_value(text) as i64)
    } else {
        None
    }
}

/// A run of digits is worth at least as much as any of its prefixes.
pub proof fn lemma_prefix_value(digits: Seq<char>, k: int)
    requires
        all_digits(digits),
        0 <= k <= digits.len(),
    ensures
        0 <= decimal_value(digits.take(k)) <= decimal_value(digits),
    decreases digits.len() - k,
{
    if k == digits.len() {
        assert(digits.take(k) =~= digits);
        lemma_value_nonnegative(digits);
    } else {
        lemma_prefix_value(digits, k + 1);
        let longer = digits.take(k + 1);
        assert(longer.drop_last() =~= digits.take(k));
        assert(is_digit(digits[k]));
        assert(longer.last() == digits[k]);
        lemma_value_nonnegative(digits.take(k));
    }
}

/// A run of digits never writes a negative number.
pub proof fn lemma_value_nonnegative(digits: Seq<char>)
    requires
        all_digits(digits),
    ensures
        0 <= decimal_value(digits),
    decreases digits.len(),
{
    if digits.len() > 0 {
        assert(is_digit(digits[digits.len() - 1]));
        lemma_value_nonnegative(digits.drop_last());
    }
}

/// Reads `text` as a decimal integer. `None` when the text is empty, is
/// only a sign, holds anything but digits after an optional sign, or writes
/// a number outside the range of an `i64`.
pub fn parse_i64(text: &str) -> (number: Option<i64>)
    ensures
        number == parse_integer(text@),
{
    let ghost digits = unsigned_part(text@);
    if !text.is_ascii() {
        proof {
            let at = choose|at: int|
                0 <= at < text@.len() && !('\0' <= #[trigger] text@[at] <= '\u{7f}');
            if digits.len() == text@.len() {
                assert(!is_digit(digits[at]));
            } else {
                assert(!is_digit(digits[at - 1]));
            }
        }
        return None;
    }
    let bytes = text.as_bytes();
    proof {
        is_ascii_spec_bytes(text);
    }
    let len = bytes.len();
    assert forall|j: int| 0 <= j < len implies bytes@[j] as int == #[trigger] text@[j] as int by {
        assert('\0' <= text@[j] <= '\u{7f}');
    }
    let mut start: usize = 0;
    let mut negative: bool = false;
    if len > 0 && bytes[0] == 43 {
        start = 1;
    } else if len > 0 && bytes[0] == 45 {
        start = 1;
        negative = true;
    }
    if start == len {
        return None;
    }
    // The largest magnitude that the sign allows.
    let limit: u64 = if negative {
        9223372036854775808
    } else {
        9223372036854775807
    };
    let mut acc: u64 = 0;
    let mut i: usize = start;
    while i < len
        invariant
            start <= i <= len,
            start <= 1,
            len == text@.len(),
            len == bytes@.len(),
            forall|j: int| 0 <= j < len ==> bytes@[j] as int == #[trigger] text@[j] as int,
            digits == unsigned_part(text@),
            digits.len() == len - start,
            forall|j: int| 0 <= j < digits.len() ==> digits[j] == text@[j + start],
            negative == is_negative(text@),
            limit == if negative {
                9223372036854775808u64
            } else {
                9223372036854775807u64
            },
            all_digits(digits.take(i - start)),
            acc == decimal_value(digits.take(i - start)),
            acc <= limit,
        decreases len - i,
    {
        let b: u8 = bytes[i];
        let ghost k = i - start;
        assert(digits[k] == text@[k + start]);
        assert(digits[k] as int == b as int);
        if b < 48 || b > 57 {
            assert(!is_digit(digits[k]));
            return None;
        }
        let value: u64 = (b - 48) as u64;
        proof {
            let longer = digits.take(k + 1);
            assert(longer.drop_last() =~= digits.take(k));
            assert(longer.last() == digits[k]);
            assert(decimal_value(longer) == 10 * acc + value);
            assert forall|j: int| 0 <= j < longer.len() implies is_digit(#[trigger] longer[j]) by {
                if j < k {
                    assert(digits.take(k)[j] == longer[j]);
                }
            }
            if all_digits(digits) {
                lemma_prefix_value(digits, k + 1);
            }
        }
        if acc > (limit - value) / 10 {
            return None;
        }
        acc = acc * 10 + value;
        i += 1;
    }
    assert(digits.take(i - start) =~= digits);
    if !negative {
        Some(acc as i64)
    } else if acc == 9223372036854775808 {
        Some(i64::MIN)
    } else {
        Some(-(acc as i64))
    }
}

} // verus!
