//! Character classes and maximal-run scanning shared by the lexers: letter
//! runs, digit runs of a given radix, and comment bodies, each with its
//! specification-level run end and an executable scanner proved against it.

use crate::numeric::is_digit;
use vstd::prelude::*;
use vstd::string::StrSliceExecFns;

verus! {

/// A character of the identifier grammar: a letter or an underscore.
pub open spec fn is_letter(c: char) -> bool {
    ('a' <= c && c <= 'z') || ('A' <= c && c <= 'Z') || c == '_'
}

/// An upper-case letter.
pub open spec fn is_upper(c: char) -> bool {
    'A' <= c && c <= 'Z'
}

/// The end of the maximal run of letters starting at `i`.
pub open spec fn letter_run_end(s: Seq<char>, i: int) -> int
    decreases s.len() - i,
    when 0 <= i <= s.len()
{
    if i < s.len() && is_letter(s[i]) {
        letter_run_end(s, i + 1)
    } else {
        i
    }
}

/// The end of the maximal run of digits of the given radix starting at `i`.
pub open spec fn digit_run_end(s: Seq<char>, i: int, radix: int) -> int
    decreases s.len() - i,
    when 0 <= i <= s.len()
{
    if i < s.len() && is_digit(s[i], radix) {
        digit_run_end(s, i + 1, radix)
    } else {
        i
    }
}

/// The end of the maximal run of non-newline characters starting at `i`.
pub open spec fn nonnl_run_end(s: Seq<char>, i: int) -> int
    decreases s.len() - i,
    when 0 <= i <= s.len()
{
    if i < s.len() && s[i] != '\n' {
        nonnl_run_end(s, i + 1)
    } else {
        i
    }
}

pub proof fn lemma_letter_run(s: Seq<char>, i: int)
    requires
        0 <= i <= s.len(),
    ensures
        i <= letter_run_end(s, i) <= s.len(),
        forall|k: int| i <= k < letter_run_end(s, i) ==> is_letter(s[k]),
        letter_run_end(s, i) < s.len() ==> !is_letter(s[letter_run_end(s, i)]),
    decreases s.len() - i,
{
    if i < s.len() && is_letter(s[i]) {
        lemma_letter_run(s, i + 1);
    }
}

pub proof fn lemma_digit_run(s: Seq<char>, i: int, radix: int)
    requires
        0 <= i <= s.len(),
    ensures
        i <= digit_run_end(s, i, radix) <= s.len(),
        forall|k: int| i <= k < digit_run_end(s, i, radix) ==> is_digit(s[k], radix),
        digit_run_end(s, i, radix) < s.len() ==> !is_digit(s[digit_run_end(s, i, radix)], radix),
    decreases s.len() - i,
{
    if i < s.len() && is_digit(s[i], radix) {
        lemma_digit_run(s, i + 1, radix);
    }
}

pub proof fn lemma_nonnl_run(s: Seq<char>, i: int)
    requires
        0 <= i <= s.len(),
    ensures
        i <= nonnl_run_end(s, i) <= s.len(),
    decreases s.len() - i,
{
    if i < s.len() && s[i] != '\n' {
        lemma_nonnl_run(s, i + 1);
    }
}

/// Whether `c` is a letter or underscore.
pub fn is_letter_char(c: char) -> (b: bool)
    ensures
        b == is_letter(c),
{
    ('a' <= c && c <= 'z') || ('A' <= c && c <= 'Z') || c == '_'
}

/// Whether `c` is an upper-case letter.
pub fn is_upper_char(c: char) -> (b: bool)
    ensures
        b == is_upper(c),
{
    'A' <= c && c <= 'Z'
}

/// Scans to the end of the letter run starting at `i`.
pub fn letter_run(chars: &Vec<char>, i: usize) -> (r: usize)
    requires
        i <= chars@.len(),
    ensures
        r == letter_run_end(chars@, i as int),
        i <= r <= chars@.len(),
{
    proof {
        lemma_letter_run(chars@, i as int);
    }
    let n = chars.len();
    let mut j = i;
    while j < n && is_letter_char(chars[j])
        invariant
            i <= j <= n,
            n == chars@.len(),
            letter_run_end(chars@, i as int) == letter_run_end(chars@, j as int),
        decreases n - j,
    {
        j += 1;
    }
    j
}

/// Scans to the end of the run of digits of the given radix starting at `i`.
pub fn digit_run(chars: &Vec<char>, i: usize, radix: u16) -> (r: usize)
    requires
        i <= chars@.len(),
    ensures
        r == digit_run_end(chars@, i as int, radix as int),
        i <= r <= chars@.len(),
{
    proof {
        lemma_digit_run(chars@, i as int, radix as int);
    }
    let n = chars.len();
    let mut j = i;
    while j < n && crate::numeric::digit_val(chars[j], radix).is_some()
        invariant
            i <= j <= n,
            n == chars@.len(),
            digit_run_end(chars@, i as int, radix as int) == digit_run_end(
                chars@,
                j as int,
                radix as int,
            ),
        decreases n - j,
    {
        j += 1;
    }
    j
}

/// Scans to the end of the run of non-newline characters starting at `i`.
pub fn nonnl_run(chars: &Vec<char>, i: usize) -> (r: usize)
    requires
        i <= chars@.len(),
    ensures
        r == nonnl_run_end(chars@, i as int),
        i <= r <= chars@.len(),
{
    proof {
        lemma_nonnl_run(chars@, i as int);
    }
    let n = chars.len();
    let mut j = i;
    while j < n && chars[j] != '\n'
        invariant
            i <= j <= n,
            n == chars@.len(),
            nonnl_run_end(chars@, i as int) == nonnl_run_end(chars@, j as int),
        decreases n - j,
    {
        j += 1;
    }
    j
}

/// Copies the characters of `src` into a vector, in order.
pub fn chars_of_str(src: &str) -> (r: Vec<char>)
    ensures
        r@ == src@,
{
    let n = src.unicode_len();
    let mut r: Vec<char> = Vec::new();
    let mut i: usize = 0;
    while i < n
        invariant
            0 <= i <= n,
            n == src@.len(),
            r@ =~= src@.take(i as int),
        decreases n - i,
    {
        r.push(src.get_char(i));
        i += 1;
    }
    proof {
        assert(r@ =~= src@);
    }
    r
}

/// The characters `chars[from..to]` as a `String`.
pub fn collect_string(chars: &Vec<char>, from: usize, to: usize) -> (r: String)
    requires
        from <= to <= chars@.len(),
    ensures
        r@ == chars@.subrange(from as int, to as int),
{
    let mut r = String::new();
    let mut k = from;
    while k < to
        invariant
            from <= k <= to <= chars@.len(),
            r@ =~= chars@.subrange(from as int, k as int),
        decreases to - k,
    {
        crate::strutil::push_char(&mut r, chars[k]);
        k += 1;
        proof {
            assert(r@ =~= chars@.subrange(from as int, k as int));
        }
    }
    r
}

/// The characters `chars[from..to]` as a fresh vector.
pub fn collect_chars(chars: &Vec<char>, from: usize, to: usize) -> (r: Vec<char>)
    requires
        from <= to <= chars@.len(),
    ensures
        r@ == chars@.subrange(from as int, to as int),
{
    let mut r: Vec<char> = Vec::new();
    let mut k = from;
    while k < to
        invariant
            from <= k <= to <= chars@.len(),
            r@ =~= chars@.subrange(from as int, k as int),
        decreases to - k,
    {
        r.push(chars[k]);
        k += 1;
        proof {
            assert(r@ =~= chars@.subrange(from as int, k as int));
        }
    }
    proof {
        assert(r@ =~= chars@.subrange(from as int, to as int));
    }
    r
}

} // verus!
