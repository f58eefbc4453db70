//! The shared numeric-literal routine: decimal, hexadecimal and binary
//! literals are all parsed by one function, parameterized by radix, that
//! scans digits left to right and reports the first failure it meets: an
//! invalid digit, overflow of the 16-bit width, or a value above the
//! architecture's maximum loadable value.

use crate::arch::MAX_LOAD_VALUE;
use vstd::prelude::*;

verus! {

/// Why a numeric literal was rejected.
#[derive(Clone, Copy, Debug, PartialEq, Eq, Structural)]
pub enum ParseValueError {
    /// A character is not a digit of the requested radix, or there were no
    /// digits at all.
    WrongDigitError,
    /// The digits overflow the 16-bit width, or the parsed value exceeds
    /// `MAX_LOAD_VALUE`.
    OverflowError,
}

/// The numeric value of `c` as a digit of radix `radix`, if it is one.
/// Both lower- and upper-case letters serve as hexadecimal digits.
pub open spec fn spec_digit(c: char, radix: int) -> Option<int> {
    let v: int = if '0' <= c && c <= '9' {
        c as int - '0' as int
    } else if 'a' <= c && c <= 'f' {
        c as int - 'a' as int + 10
    } else if 'A' <= c && c <= 'F' {
        c as int - 'A' as int + 10
    } else {
        99
    };
    if v < radix {
        Some(v)
    } else {
        None
    }
}

/// Whether `c` is a digit of radix `radix`.
pub open spec fn is_digit(c: char, radix: int) -> bool {
    spec_digit(c, radix) is Some
}

/// The index of the first character that is not a digit of the radix, or the
/// length of the sequence when every character is one.
pub open spec fn first_bad(s: Seq<char>, radix: int) -> int
    decreases s.len(),
{
    if s.len() == 0 || !is_digit(s[0], radix) {
        0
    } else {
        1 + first_bad(s.drop_first(), radix)
    }
}

/// The digit value of `c`, or zero where `c` is no digit.
pub open spec fn digit_or_zero(c: char, radix: int) -> int {
    match spec_digit(c, radix) {
        Some(v) => v,
        None => 0,
    }
}

/// The value of a digit string read in the given radix, with non-digits
/// counting as zero.
pub open spec fn radix_val(s: Seq<char>, radix: int) -> int
    decreases s.len(),
{
    if s.len() == 0 {
        0
    } else {
        radix_val(s.drop_last(), radix) * radix + digit_or_zero(s.last(), radix)
    }
}

pub proof fn lemma_first_bad_bounds(s: Seq<char>, radix: int)
    ensures
        0 <= first_bad(s, radix) <= s.len(),
        forall|k: int| 0 <= k < first_bad(s, radix) ==> is_digit(s[k], radix),
        first_bad(s, radix) < s.len() ==> !is_digit(s[first_bad(s, radix)], radix),
    decreases s.len(),
{
    if s.len() > 0 && is_digit(s[0], radix) {
        lemma_first_bad_bounds(s.drop_first(), radix);
        assert forall|k: int| 0 <= k < first_bad(s, radix) implies is_digit(s[k], radix) by {
            if k > 0 {
                assert(s.drop_first()[k - 1] == s[k]);
                assert(is_digit(s.drop_first()[k - 1], radix));
            }
        }
    }
}

/// Pins `first_bad` from a scan that found the digits `s[0..i]` valid and
/// (where `i` is interior) `s[i]` invalid.
pub proof fn lemma_first_bad_at(s: Seq<char>, radix: int, i: int)
    requires
        0 <= i <= s.len(),
        forall|k: int| 0 <= k < i ==> is_digit(s[k], radix),
        i < s.len() ==> !is_digit(s[i], radix),
    ensures
        first_bad(s, radix) == i,
    decreases s.len(),
{
    if s.len() == 0 {
    } else if i == 0 {
    } else {
        assert(is_digit(s[0], radix));
        assert(forall|k: int| 0 <= k < i - 1 ==> s.drop_first()[k] == s[k + 1]);
        lemma_first_bad_at(s.drop_first(), radix, i - 1);
    }
}

pub proof fn lemma_radix_val_nonneg(s: Seq<char>, radix: int)
    requires
        radix >= 0,
    ensures
        radix_val(s, radix) >= 0,
    decreases s.len(),
{
    if s.len() > 0 {
        lemma_radix_val_nonneg(s.drop_last(), radix);
        assert(radix_val(s.drop_last(), radix) * radix >= 0) by (nonlinear_arith)
            requires
                radix_val(s.drop_last(), radix) >= 0,
                radix >= 0,
        ;
        assert(digit_or_zero(s.last(), radix) >= 0);
    }
}

/// The value of a digit string never shrinks as more digits are read.
pub proof fn lemma_radix_val_mono(s: Seq<char>, radix: int, i: int, j: int)
    requires
        0 <= i <= j <= s.len(),
        radix >= 1,
    ensures
        radix_val(s.take(j), radix) >= radix_val(s.take(i), radix),
    decreases j - i,
{
    if i < j {
        lemma_radix_val_mono(s, radix, i, j - 1);
        assert(s.take(j).drop_last() =~= s.take(j - 1));
        let v = radix_val(s.take(j - 1), radix);
        lemma_radix_val_nonneg(s.take(j - 1), radix);
        assert(v * radix >= v) by (nonlinear_arith)
            requires
                v >= 0,
                radix >= 1,
        ;
        assert(digit_or_zero(s.take(j).last(), radix) >= 0);
    }
}

/// What the shared numeric routine returns on a digit string: scanning left
/// to right, an invalid digit or an overflow of the 16-bit width fails at
/// the position where it is met, whichever comes first; digits that parse
/// but exceed `MAX_LOAD_VALUE` overflow as well; an empty string has no
/// valid digit.
pub open spec fn parse_number_spec(s: Seq<char>, radix: int) -> Result<u16, ParseValueError> {
    let fb = first_bad(s, radix);
    if radix_val(s.take(fb), radix) > 65535 {
        Err(ParseValueError::OverflowError)
    } else if fb < s.len() || s.len() == 0 {
        Err(ParseValueError::WrongDigitError)
    } else if radix_val(s, radix) > MAX_LOAD_VALUE {
        Err(ParseValueError::OverflowError)
    } else {
        Ok(radix_val(s, radix) as u16)
    }
}

/// A successfully parsed literal always lies within the loadable range.
pub proof fn lemma_parse_ok_in_range(s: Seq<char>, radix: int)
    requires
        radix >= 0,
    ensures
        parse_number_spec(s, radix) matches Ok(v) ==> v <= MAX_LOAD_VALUE,
{
    lemma_radix_val_nonneg(s, radix);
}

/// The digit value of `c` in the given radix, if it is a digit of it.
pub fn digit_val(c: char, radix: u16) -> (r: Option<u16>)
    ensures
        r is Some <==> spec_digit(c, radix as int) is Some,
        r is Some ==> r->0 == spec_digit(c, radix as int)->0,
{
    let v: u16 = if '0' <= c && c <= '9' {
        (c as u32 - '0' as u32) as u16
    } else if 'a' <= c && c <= 'f' {
        (c as u32 - 'a' as u32 + 10) as u16
    } else if 'A' <= c && c <= 'F' {
        (c as u32 - 'A' as u32 + 10) as u16
    } else {
        99
    };
    if v < radix {
        Some(v)
    } else {
        None
    }
}

/// Parses a digit string (prefix already stripped) in the given radix,
/// validating against the 16-bit width and the maximum loadable value.
pub fn parse_number(digits: &Vec<char>, radix: u16) -> (r: Result<u16, ParseValueError>)
    requires
        radix == 2 || radix == 10 || radix == 16,
    ensures
        r == parse_number_spec(digits@, radix as int),
{
    let ghost s = digits@;
    let n = digits.len();
    let mut acc: u32 = 0;
    let mut i: usize = 0;
    while i < n
        invariant
            n == s.len(),
            0 <= i <= n,
            radix == 2 || radix == 10 || radix == 16,
            s == digits@,
            forall|k: int| 0 <= k < i ==> is_digit(s[k], radix as int),
            acc == radix_val(s.take(i as int), radix as int),
            acc <= 65535,
        decreases n - i,
    {
        let c = digits[i];
        match digit_val(c, radix) {
            None => {
                proof {
                    lemma_first_bad_at(s, radix as int, i as int);
                }
                return Err(ParseValueError::WrongDigitError);
            },
            Some(d) => {
                proof {
                    assert((acc as int) * (radix as int) <= 65535 * 16) by (nonlinear_arith)
                        requires
                            acc <= 65535,
                            0 <= radix <= 16,
                    ;
                }
                acc = acc * (radix as u32) + (d as u32);
                proof {
                    assert(s.take(i + 1).drop_last() =~= s.take(i as int));
                    assert(s.take(i + 1).last() == s[i as int]);
                    assert(acc == radix_val(s.take(i + 1), radix as int));
                }
                if acc > 65535 {
                    proof {
                        lemma_first_bad_bounds(s, radix as int);
                        let fb = first_bad(s, radix as int);
                        assert(fb >= i + 1) by {
                            if fb < i + 1 {
                                assert(is_digit(s[fb], radix as int));
                            }
                        }
                        lemma_radix_val_mono(s, radix as int, i + 1, fb);
                    }
                    return Err(ParseValueError::OverflowError);
                }
                i += 1;
            },
        }
    }
    proof {
        lemma_first_bad_at(s, radix as int, n as int);
        assert(s.take(n as int) =~= s);
    }
    if n == 0 {
        return Err(ParseValueError::WrongDigitError);
    }
    if acc > MAX_LOAD_VALUE as u32 {
        Err(ParseValueError::OverflowError)
    } else {
        Ok(acc as u16)
    }
}

} // verus!
