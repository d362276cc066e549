//! Decimal text for unsigned integers: a verified renderer and parser,
//! and with them an implementation of [`ParseText`] for `u64`.
//!
//! The canonical text of a number is its usual base-ten form without
//! leading zeros; the parser accepts any non-empty digit string whose
//! value fits, leading zeros included.

use crate::parsed_input::ParseText;
use vstd::prelude::*;

verus! {

/// The digit character for `d` in `0..10`.
pub open spec fn digit_char(d: int) -> char
    recommends
        0 <= d < 10,
{
    if d == 0 {
        '0'
    } else if d == 1 {
        '1'
    } else if d == 2 {
        '2'
    } else if d == 3 {
        '3'
    } else if d == 4 {
        '4'
    } else if d == 5 {
        '5'
    } else if d == 6 {
        '6'
    } else if d == 7 {
        '7'
    } else if d == 8 {
        '8'
    } else {
        '9'
    }
}

/// The canonical base-ten text of `n`: most significant digit first, no
/// leading zeros.
pub open spec fn spec_digits(n: nat) -> Seq<char>
    decreases n,
{
    if n < 10 {
        seq![digit_char(n as int)]
    } else {
        spec_digits(n / 10).push(digit_char((n % 10) as int))
    }
}

/// Whether `c` is a base-ten digit.
pub open spec fn is_digit(c: char) -> bool {
    48 <= c as int <= 57
}

/// Whether every character of `text` is a base-ten digit.
pub open spec fn all_digits(text: Seq<char>) -> bool {
    forall|i: int| 0 <= i < text.len() ==> is_digit(#[trigger] text[i])
}

/// The numeric value of a digit string.
pub open spec fn digits_val(text: Seq<char>) -> int
    decreases text.len(),
{
    if text.len() == 0 {
        0
    } else {
        digits_val(text.drop_last()) * 10 + (text.last() as int - 48)
    }
}

/// The value a decimal text denotes: defined for non-empty digit
/// strings whose value fits in `u64`.
pub open spec fn spec_parse_u64(text: Seq<char>) -> Option<u64> {
    if text.len() > 0 && all_digits(text) && digits_val(text) <= u64::MAX as int {
        Some(digits_val(text) as u64)
    } else {
        None
    }
}

/// Why a decimal text failed to parse.
#[derive(Debug, Clone, Copy, PartialEq, Eq, Structural)]
pub enum ParseNumberError {
    /// The text was empty.
    Empty,
    /// The text held a character that is no base-ten digit.
    InvalidDigit,
    /// The value does not fit in the target type.
    Overflow,
}

/// The canonical digits of a number are digits, denote that number, and
/// are never empty.
proof fn lemma_digits_value(n: nat)
    ensures
        spec_digits(n).len() >= 1,
        all_digits(spec_digits(n)),
        digits_val(spec_digits(n)) == n,
    decreases n,
{
    if n < 10 {
        let s = spec_digits(n);
        assert(s.len() == 1);
        assert(s.drop_last() =~= Seq::<char>::empty());
        assert(is_digit(s[0]));
        assert(s.last() == digit_char(n as int));
        assert(digit_char(n as int) as int == 48 + n);
        assert(digits_val(s) == digits_val(s.drop_last()) * 10 + (s.last() as int - 48));
        assert(digits_val(Seq::<char>::empty()) == 0);
    } else {
        lemma_digits_value(n / 10);
        let prefix = spec_digits(n / 10);
        let c = digit_char((n % 10) as int);
        assert(is_digit(c));
        let s = prefix.push(c);
        assert(s.drop_last() =~= prefix);
        assert(s.last() == c);
        assert(forall|i: int| 0 <= i < prefix.len() ==> s[i] == prefix[i]);
        assert(digits_val(s) == digits_val(prefix) * 10 + (n % 10));
        assert(n / 10 * 10 + n % 10 == n) by {
            vstd::arithmetic::div_mod::lemma_fundamental_div_mod(n as int, 10);
        }
    }
}

/// A digit string's value never shrinks as it grows to the right.
proof fn lemma_digits_val_grows(text: Seq<char>, i: int, j: int)
    requires
        0 <= i <= j <= text.len(),
        all_digits(text),
    ensures
        0 <= digits_val(text.subrange(0, i)) <= digits_val(text.subrange(0, j)),
    decreases j - i,
{
    lemma_digits_val_nonneg(text, i);
    if i < j {
        lemma_digits_val_grows(text, i, j - 1);
        let shorter = text.subrange(0, j - 1);
        let longer = text.subrange(0, j);
        assert(longer.drop_last() =~= shorter);
        assert(longer.last() == text[j - 1]);
        lemma_digits_val_nonneg(text, j - 1);
    }
}

/// A digit prefix has a non-negative value.
proof fn lemma_digits_val_nonneg(text: Seq<char>, i: int)
    requires
        0 <= i <= text.len(),
        all_digits(text),
    ensures
        0 <= digits_val(text.subrange(0, i)),
    decreases i,
{
    if i > 0 {
        lemma_digits_val_nonneg(text, i - 1);
        let longer = text.subrange(0, i);
        assert(longer.drop_last() =~= text.subrange(0, i - 1));
        assert(longer.last() == text[i - 1]);
    }
}

/// The digit string for `d` in `0..10`.
fn digit_str(d: u64) -> (out: &'static str)
    requires
        d < 10,
    ensures
        out@ =~= seq![digit_char(d as int)],
{
    proof {
        reveal_strlit("0");
        reveal_strlit("1");
        reveal_strlit("2");
        reveal_strlit("3");
        reveal_strlit("4");
        reveal_strlit("5");
        reveal_strlit("6");
        reveal_strlit("7");
        reveal_strlit("8");
        reveal_strlit("9");
    }
    if d == 0 {
        "0"
    } else if d == 1 {
        "1"
    } else if d == 2 {
        "2"
    } else if d == 3 {
        "3"
    } else if d == 4 {
        "4"
    } else if d == 5 {
        "5"
    } else if d == 6 {
        "6"
    } else if d == 7 {
        "7"
    } else if d == 8 {
        "8"
    } else {
        "9"
    }
}

/// Appends the canonical digits of `n` to `out`.
fn push_digits(n: u64, out: &mut String)
    ensures
        final(out)@ == old(out)@ + spec_digits(n as nat),
    decreases n,
{
    if n < 10 {
        out.append(digit_str(n));
        proof {
            assert(final(out)@ =~= old(out)@ + spec_digits(n as nat));
        }
    } else {
        push_digits(n / 10, out);
        out.append(digit_str(n % 10));
        proof {
            assert(final(out)@ =~= old(out)@ + spec_digits(n as nat));
        }
    }
}

/// Renders `n` in its canonical base-ten form.
pub fn u64_to_text(n: u64) -> (text: String)
    ensures
        text@ == spec_digits(n as nat),
{
    let mut text = String::new();
    push_digits(n, &mut text);
    proof {
        assert(text@ =~= spec_digits(n as nat));
    }
    text
}

/// Parses a base-ten text into a `u64`.
///
/// Succeeds exactly on non-empty digit strings whose value fits; the
/// error says which of the three conditions failed, an empty text and a
/// stray character taking precedence over overflow.
pub fn parse_u64(text: &str) -> (result: Result<u64, ParseNumberError>)
    ensures
        result is Ok <==> spec_parse_u64(text@) is Some,
        result matches Ok(value) ==> spec_parse_u64(text@) == Some(value),
        result == Err::<u64, _>(ParseNumberError::Empty) <==> text@.len() == 0,
        result == Err::<u64, _>(ParseNumberError::InvalidDigit) <==> text@.len() > 0 && !all_digits(
            text@,
        ),
        result == Err::<u64, _>(ParseNumberError::Overflow) <==> text@.len() > 0 && all_digits(
            text@,
        ) && digits_val(text@) > u64::MAX as int,
{
    let length = text.unicode_len();
    if length == 0 {
        return Err(ParseNumberError::Empty);
    }
    // First pass: every character must be a digit.
    let mut i: usize = 0;
    while i < length
        invariant
            i <= length,
            length == text@.len(),
            forall|k: int| 0 <= k < i ==> is_digit(#[trigger] text@[k]),
        decreases length - i,
    {
        let c = text.get_char(i);
        let code = c as u32;
        if code < 48 || code > 57 {
            return Err(ParseNumberError::InvalidDigit);
        }
        i = i + 1;
    }
    assert(all_digits(text@));
    // Second pass: accumulate the value, watching for overflow.
    let mut value: u64 = 0;
    let mut i: usize = 0;
    while i < length
        invariant
            i <= length,
            length == text@.len(),
            all_digits(text@),
            value as int == digits_val(text@.subrange(0, i as int)),
        decreases length - i,
    {
        let c = text.get_char(i);
        let code = c as u32;
        assert(is_digit(text@[i as int]));
        let d: u64 = (code - 48) as u64;
        proof {
            assert(text@.subrange(0, i as int + 1).drop_last() =~= text@.subrange(0, i as int));
            assert(text@.subrange(0, i as int + 1).last() == text@[i as int]);
        }
        if value > (u64::MAX - d) / 10 {
            proof {
                assert(value as int * 10 + d as int > u64::MAX as int) by {
                    vstd::arithmetic::div_mod::lemma_fundamental_div_mod(
                        u64::MAX as int - d as int,
                        10,
                    );
                }
                lemma_digits_val_grows(text@, i as int + 1, text@.len() as int);
                assert(text@.subrange(0, text@.len() as int) =~= text@);
            }
            return Err(ParseNumberError::Overflow);
        }
        proof {
            assert(value as int <= (u64::MAX as int - d as int) / 10);
            assert(value as int * 10 + d as int <= u64::MAX as int) by {
                vstd::arithmetic::div_mod::lemma_fundamental_div_mod(
                    u64::MAX as int - d as int,
                    10,
                );
                vstd::arithmetic::div_mod::lemma_mod_pos_bound(u64::MAX as int - d as int, 10);
            }
        }
        value = value * 10 + d;
        i = i + 1;
    }
    proof {
        assert(text@.subrange(0, length as int) =~= text@);
    }
    Ok(value)
}

impl ParseText for u64 {
    type Err = ParseNumberError;

    open spec fn text_spec(&self) -> Seq<char> {
        spec_digits(*self as nat)
    }

    open spec fn parse_spec(text: Seq<char>) -> Option<u64> {
        spec_parse_u64(text)
    }

    fn to_text(&self) -> (text: String) {
        u64_to_text(*self)
    }

    fn parse_text(text: &str) -> (result: Result<u64, ParseNumberError>) {
        parse_u64(text)
    }

    proof fn lemma_round_trip(&self) {
        lemma_digits_value(*self as nat);
    }
}

} // verus!
