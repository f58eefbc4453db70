//! Whole-clause handling of the `DEFINE` directive: a clause
//! `DEFINE <name> <value>` is validated as a unit, so that its operand count
//! can be checked — exactly one name matching the identifier grammar and
//! exactly one value, parsed by the shared numeric routine.

use crate::lexer::{is_whitespace, lemma_ws_end, ws_end};
use crate::numeric::{parse_number, parse_number_spec, ParseValueError};
use crate::scan::{chars_of_str, collect_chars, collect_string, is_letter, is_letter_char};
use vstd::prelude::*;

verus! {

/// Why a `DEFINE` clause was rejected.
#[derive(Clone, Copy, Debug, PartialEq, Eq, Structural)]
pub enum ParseDefineError {
    /// The value operand failed the shared numeric routine.
    ValueError(ParseValueError),
    /// Fewer than two operands follow the directive.
    TooFewOperandError,
    /// More than two operands follow the directive.
    TooManyOperandError,
    /// The name operand does not match the identifier grammar.
    InvalidName,
}

/// The end of the whitespace-separated word starting at `i`.
pub open spec fn word_end(s: Seq<char>, i: int) -> int
    decreases s.len() - i,
    when 0 <= i <= s.len()
{
    if i < s.len() && !is_whitespace(s[i]) {
        word_end(s, i + 1)
    } else {
        i
    }
}

pub proof fn lemma_word_end(s: Seq<char>, i: int)
    requires
        0 <= i <= s.len(),
    ensures
        i <= word_end(s, i) <= s.len(),
    decreases s.len() - i,
{
    if i < s.len() && !is_whitespace(s[i]) {
        lemma_word_end(s, i + 1);
    }
}

/// Whether `name` matches the identifier grammar: one or more letters or
/// underscores.
pub open spec fn valid_name(name: Seq<char>) -> bool {
    name.len() >= 1 && forall|k: int| 0 <= k < name.len() ==> is_letter(name[k])
}

/// The radix and digit characters of a value word: a `0x` prefix selects
/// hexadecimal and a `0b` prefix binary, anything else is read as decimal.
pub open spec fn value_parts(w: Seq<char>) -> (int, Seq<char>) {
    if w.len() >= 2 && w[0] == '0' && w[1] == 'x' {
        (16, w.subrange(2, w.len() as int))
    } else if w.len() >= 2 && w[0] == '0' && w[1] == 'b' {
        (2, w.subrange(2, w.len() as int))
    } else {
        (10, w)
    }
}

/// What parsing a whole `DEFINE` clause yields. The first word is the
/// directive itself. A missing name or value is too few operands; an
/// ill-formed name fails before the value is looked at; a value that the
/// numeric routine rejects fails before the operand count is completed; a
/// third operand is too many.
pub open spec fn parse_define_spec(s: Seq<char>) -> Result<
    (Seq<char>, u16),
    ParseDefineError,
> {
    let i1 = ws_end(s, word_end(s, ws_end(s, 0)));
    let e1 = word_end(s, i1);
    let i2 = ws_end(s, e1);
    let e2 = word_end(s, i2);
    let i3 = ws_end(s, e2);
    if i1 >= s.len() {
        Err(ParseDefineError::TooFewOperandError)
    } else {
        let name = s.subrange(i1, e1);
        if !valid_name(name) {
            Err(ParseDefineError::InvalidName)
        } else if i2 >= s.len() {
            Err(ParseDefineError::TooFewOperandError)
        } else {
            let parts = value_parts(s.subrange(i2, e2));
            match parse_number_spec(parts.1, parts.0) {
                Err(e) => Err(ParseDefineError::ValueError(e)),
                Ok(v) => if i3 < s.len() {
                    Err(ParseDefineError::TooManyOperandError)
                } else {
                    Ok((name, v))
                },
            }
        }
    }
}

/// Whether the clause's words are separated at `c`.
fn is_ws_char(c: char) -> (b: bool)
    ensures
        b == is_whitespace(c),
{
    c == ' ' || c == '\t' || c == '\r' || c == '\n' || c == '\u{c}'
}

/// Skips whitespace from `pos`.
fn skip_ws(chars: &Vec<char>, pos: usize) -> (r: usize)
    requires
        pos <= chars@.len(),
    ensures
        r == ws_end(chars@, pos as int),
        pos <= r <= chars@.len(),
{
    proof {
        lemma_ws_end(chars@, pos as int);
    }
    let n = chars.len();
    let mut j = pos;
    while j < n && is_ws_char(chars[j])
        invariant
            pos <= j <= n,
            n == chars@.len(),
            ws_end(chars@, pos as int) == ws_end(chars@, j as int),
        decreases n - j,
    {
        j += 1;
    }
    j
}

/// Scans to the end of the word starting at `pos`.
fn scan_word_end(chars: &Vec<char>, pos: usize) -> (r: usize)
    requires
        pos <= chars@.len(),
    ensures
        r == word_end(chars@, pos as int),
        pos <= r <= chars@.len(),
{
    proof {
        lemma_word_end(chars@, pos as int);
    }
    let n = chars.len();
    let mut j = pos;
    while j < n && !is_ws_char(chars[j])
        invariant
            pos <= j <= n,
            n == chars@.len(),
            word_end(chars@, pos as int) == word_end(chars@, j as int),
        decreases n - j,
    {
        j += 1;
    }
    j
}

/// Whether `chars[from..to]` matches the identifier grammar.
fn check_name(chars: &Vec<char>, from: usize, to: usize) -> (r: bool)
    requires
        from <= to <= chars@.len(),
    ensures
        r == valid_name(chars@.subrange(from as int, to as int)),
{
    let ghost name = chars@.subrange(from as int, to as int);
    if from == to {
        return false;
    }
    let mut k = from;
    while k < to
        invariant
            from <= k <= to <= chars@.len(),
            name == chars@.subrange(from as int, to as int),
            forall|j: int| 0 <= j < k - from ==> is_letter(name[j]),
        decreases to - k,
    {
        if !is_letter_char(chars[k]) {
            proof {
                assert(name[k - from] == chars@[k as int]);
            }
            return false;
        }
        proof {
            assert(name[k - from] == chars@[k as int]);
        }
        k += 1;
    }
    true
}

/// Parses a whole `DEFINE` clause, directive word included, into the
/// declared name and its value.
pub fn parse_define(clause: &str) -> (r: Result<(String, u16), ParseDefineError>)
    ensures
        ({
            match parse_define_spec(clause@) {
                Ok((nm, v)) => r matches Ok(p) && p.0@ == nm && p.1 == v,
                Err(e) => r matches Err(e2) && e2 == e,
            }
        }),
{
    let chars = chars_of_str(clause);
    let ghost s = chars@;
    let n = chars.len();
    let i0 = skip_ws(&chars, 0);
    let e0 = scan_word_end(&chars, i0);
    let i1 = skip_ws(&chars, e0);
    let e1 = scan_word_end(&chars, i1);
    let i2 = skip_ws(&chars, e1);
    let e2 = scan_word_end(&chars, i2);
    let i3 = skip_ws(&chars, e2);
    if i1 >= n {
        return Err(ParseDefineError::TooFewOperandError);
    }
    if !check_name(&chars, i1, e1) {
        return Err(ParseDefineError::InvalidName);
    }
    if i2 >= n {
        return Err(ParseDefineError::TooFewOperandError);
    }
    let (radix, dig_from): (u16, usize) = if e2 - i2 >= 2 && chars[i2] == '0' && chars[i2 + 1]
        == 'x' {
        (16, i2 + 2)
    } else if e2 - i2 >= 2 && chars[i2] == '0' && chars[i2 + 1] == 'b' {
        (2, i2 + 2)
    } else {
        (10, i2)
    };
    proof {
        let w = s.subrange(i2 as int, e2 as int);
        assert(value_parts(w).0 == radix as int);
        assert(value_parts(w).1 =~= s.subrange(dig_from as int, e2 as int));
    }
    let digits = collect_chars(&chars, dig_from, e2);
    match parse_number(&digits, radix) {
        Err(e) => Err(ParseDefineError::ValueError(e)),
        Ok(v) => {
            if i3 < n {
                Err(ParseDefineError::TooManyOperandError)
            } else {
                let name = collect_string(&chars, i1, e1);
                Ok((name, v))
            }
        },
    }
}

} // verus!
