//! A keyword-based tokenizer for the explicit-mnemonic dialect of the
//! assembly language: operators may be spelled as symbols or as words
//! (`+` / `ADD`), assignment is `<-`, and a label is a name directly
//! followed by a colon, carried as one token with the colon stripped.

use crate::numeric::{is_digit, parse_number, parse_number_spec};
use crate::scan::{
    chars_of_str, collect_chars, collect_string, digit_run, digit_run_end, is_letter,
    is_letter_char, lemma_digit_run, lemma_letter_run, letter_run, letter_run_end,
};
use vstd::prelude::*;

verus! {

/// A token of the explicit-mnemonic dialect.
#[derive(Debug, PartialEq)]
pub enum Token {
    Add,
    Sub,
    And,
    Or,
    Xor,
    Not,
    Assignment,
    Jmp,
    Gt,
    Lt,
    Eq,
    Neq,
    Gtoeq,
    Ltoeq,
    A,
    StarA,
    V,
    StarV,
    C,
    Number(u16),
    Label(String),
}

/// The mathematical shape of a token: a label is its character sequence.
pub enum TokenV {
    Add,
    Sub,
    And,
    Or,
    Xor,
    Not,
    Assignment,
    Jmp,
    Gt,
    Lt,
    Eq,
    Neq,
    Gtoeq,
    Ltoeq,
    A,
    StarA,
    V,
    StarV,
    C,
    Number(u16),
    Label(Seq<char>),
}

impl View for Token {
    type V = TokenV;

    open spec fn view(&self) -> TokenV {
        match self {
            Token::Add => TokenV::Add,
            Token::Sub => TokenV::Sub,
            Token::And => TokenV::And,
            Token::Or => TokenV::Or,
            Token::Xor => TokenV::Xor,
            Token::Not => TokenV::Not,
            Token::Assignment => TokenV::Assignment,
            Token::Jmp => TokenV::Jmp,
            Token::Gt => TokenV::Gt,
            Token::Lt => TokenV::Lt,
            Token::Eq => TokenV::Eq,
            Token::Neq => TokenV::Neq,
            Token::Gtoeq => TokenV::Gtoeq,
            Token::Ltoeq => TokenV::Ltoeq,
            Token::A => TokenV::A,
            Token::StarA => TokenV::StarA,
            Token::V => TokenV::V,
            Token::StarV => TokenV::StarV,
            Token::C => TokenV::C,
            Token::Number(v) => TokenV::Number(*v),
            Token::Label(s) => TokenV::Label(s@),
        }
    }
}

/// The view of a lexing outcome: the error payload is unit.
pub open spec fn res_view(r: Result<Token, ()>) -> Result<TokenV, ()> {
    match r {
        Ok(t) => Ok(t@),
        Err(e) => Err(e),
    }
}

/// The characters this tokenizer skips between tokens.
pub open spec fn is_whitespace(c: char) -> bool {
    c == ' ' || c == '\t' || c == '\n' || c == '\u{c}'
}

/// The first position at or after `i` that holds no whitespace, or the end
/// of the text.
pub open spec fn ws_end(s: Seq<char>, i: int) -> int
    decreases s.len() - i,
    when 0 <= i <= s.len()
{
    if i < s.len() && is_whitespace(s[i]) {
        ws_end(s, i + 1)
    } else {
        i
    }
}

pub proof fn lemma_ws_end(s: Seq<char>, i: int)
    requires
        0 <= i <= s.len(),
    ensures
        i <= ws_end(s, i) <= s.len(),
        ws_end(s, ws_end(s, i)) == ws_end(s, i),
    decreases s.len() - i,
{
    if i < s.len() && is_whitespace(s[i]) {
        lemma_ws_end(s, i + 1);
    }
}

/// Whether `s[i..end]` is the one-character word `a`.
pub open spec fn run1(s: Seq<char>, i: int, end: int, a: char) -> bool {
    end - i == 1 && s[i] == a
}

/// Whether `s[i..end]` is the two-character word `ab`.
pub open spec fn run2(s: Seq<char>, i: int, end: int, a: char, b: char) -> bool {
    end - i == 2 && s[i] == a && s[i + 1] == b
}

/// Whether `s[i..end]` is the three-character word `abc`.
pub open spec fn run3(s: Seq<char>, i: int, end: int, a: char, b: char, c: char) -> bool {
    end - i == 3 && s[i] == a && s[i + 1] == b && s[i + 2] == c
}

/// A numeric literal becomes a `Number` token when it parses and lies in
/// range; otherwise the literal's whole span is an error.
pub open spec fn value_or_err(digits: Seq<char>, radix: int) -> Result<TokenV, ()> {
    match parse_number_spec(digits, radix) {
        Ok(v) => Ok(TokenV::Number(v)),
        Err(_) => Err(()),
    }
}

/// The token read at a digit: a hexadecimal (`0x`/`0X`) or binary
/// (`0b`/`0B`) literal when its prefix is followed by at least one digit of
/// that radix, otherwise a decimal literal.
pub open spec fn number_token(s: Seq<char>, i: int) -> (Result<TokenV, ()>, int) {
    if s[i] == '0' && i + 1 < s.len() && (s[i + 1] == 'x' || s[i + 1] == 'X') && i + 2 < s.len()
        && is_digit(s[i + 2], 16) {
        let end = digit_run_end(s, i + 2, 16);
        (value_or_err(s.subrange(i + 2, end), 16), end)
    } else if s[i] == '0' && i + 1 < s.len() && (s[i + 1] == 'b' || s[i + 1] == 'B') && i + 2
        < s.len() && is_digit(s[i + 2], 2) {
        let end = digit_run_end(s, i + 2, 2);
        (value_or_err(s.subrange(i + 2, end), 2), end)
    } else {
        let end = digit_run_end(s, i, 10);
        (value_or_err(s.subrange(i, end), 10), end)
    }
}

/// The token read at a letter: the whole letter run is taken; a run closed
/// by a colon is a label (the colon is consumed but stripped from the name);
/// otherwise the run must be one of the keyword spellings, and any other run
/// is an error covering it whole.
pub open spec fn word_token(s: Seq<char>, i: int) -> (Result<TokenV, ()>, int) {
    let end = letter_run_end(s, i);
    if end < s.len() && s[end] == ':' {
        (Ok(TokenV::Label(s.subrange(i, end))), end + 1)
    } else if run3(s, i, end, 'A', 'D', 'D') {
        (Ok(TokenV::Add), end)
    } else if run3(s, i, end, 'S', 'U', 'B') {
        (Ok(TokenV::Sub), end)
    } else if run3(s, i, end, 'A', 'N', 'D') {
        (Ok(TokenV::And), end)
    } else if run2(s, i, end, 'O', 'R') {
        (Ok(TokenV::Or), end)
    } else if run3(s, i, end, 'X', 'O', 'R') {
        (Ok(TokenV::Xor), end)
    } else if run3(s, i, end, 'N', 'O', 'T') {
        (Ok(TokenV::Not), end)
    } else if run3(s, i, end, 'J', 'M', 'P') {
        (Ok(TokenV::Jmp), end)
    } else if run1(s, i, end, 'A') {
        (Ok(TokenV::A), end)
    } else if run1(s, i, end, 'V') {
        (Ok(TokenV::V), end)
    } else if run1(s, i, end, 'C') {
        (Ok(TokenV::C), end)
    } else {
        (Err(()), end)
    }
}

/// The token starting at position `i` of the source, together with its end.
pub open spec fn token_at(s: Seq<char>, i: int) -> (Result<TokenV, ()>, int) {
    let c = s[i];
    if c == '+' {
        (Ok(TokenV::Add), i + 1)
    } else if c == '-' {
        (Ok(TokenV::Sub), i + 1)
    } else if c == '&' {
        (Ok(TokenV::And), i + 1)
    } else if c == '|' {
        (Ok(TokenV::Or), i + 1)
    } else if c == '^' {
        (Ok(TokenV::Xor), i + 1)
    } else if c == '~' {
        (Ok(TokenV::Not), i + 1)
    } else if c == '<' {
        if i + 1 < s.len() && s[i + 1] == '-' {
            (Ok(TokenV::Assignment), i + 2)
        } else if i + 1 < s.len() && s[i + 1] == '=' {
            (Ok(TokenV::Ltoeq), i + 2)
        } else {
            (Ok(TokenV::Lt), i + 1)
        }
    } else if c == '>' {
        if i + 1 < s.len() && s[i + 1] == '=' {
            (Ok(TokenV::Gtoeq), i + 2)
        } else {
            (Ok(TokenV::Gt), i + 1)
        }
    } else if c == '=' {
        if i + 1 < s.len() && s[i + 1] == '=' {
            (Ok(TokenV::Eq), i + 2)
        } else {
            (Err(()), i + 1)
        }
    } else if c == '!' {
        if i + 1 < s.len() && s[i + 1] == '=' {
            (Ok(TokenV::Neq), i + 2)
        } else {
            (Err(()), i + 1)
        }
    } else if c == '*' {
        if i + 1 < s.len() && s[i + 1] == 'A' {
            (Ok(TokenV::StarA), i + 2)
        } else if i + 1 < s.len() && s[i + 1] == 'V' {
            (Ok(TokenV::StarV), i + 2)
        } else {
            (Err(()), i + 1)
        }
    } else if is_digit(c, 10) {
        number_token(s, i)
    } else if is_letter(c) {
        word_token(s, i)
    } else {
        (Err(()), i + 1)
    }
}

/// Every token covers at least one character and ends within the text.
pub proof fn lemma_token_at_advances(s: Seq<char>, i: int)
    requires
        0 <= i < s.len(),
    ensures
        i < token_at(s, i).1 <= s.len(),
{
    if is_digit(s[i], 10) {
        if s[i] == '0' && i + 1 < s.len() && (s[i + 1] == 'x' || s[i + 1] == 'X') && i + 2 < s.len()
            && is_digit(s[i + 2], 16) {
            lemma_digit_run(s, i + 2, 16);
        } else if s[i] == '0' && i + 1 < s.len() && (s[i + 1] == 'b' || s[i + 1] == 'B') && i + 2
            < s.len() && is_digit(s[i + 2], 2) {
            lemma_digit_run(s, i + 2, 2);
        } else {
            lemma_digit_run(s, i, 10);
            if digit_run_end(s, i, 10) == i {
                assert(!is_digit(s[i], 10));
            }
        }
    } else if is_letter(s[i]) {
        lemma_letter_run(s, i);
        if letter_run_end(s, i) == i {
            assert(!is_letter(s[i]));
        }
    }
}

/// A lazy, non-restartable scanner over the source text.
pub struct Lexer {
    chars: Vec<char>,
    pos: usize,
}

impl Lexer {
    /// The characters being scanned.
    pub closed spec fn src(&self) -> Seq<char> {
        self.chars@
    }

    /// The current scan position.
    pub closed spec fn position(&self) -> int {
        self.pos as int
    }

    /// The scan position never leaves the text.
    pub open spec fn wf(&self) -> bool {
        0 <= self.position() <= self.src().len()
    }
}

/// Whether this tokenizer skips `c` between tokens.
fn is_ws_char(c: char) -> (b: bool)
    ensures
        b == is_whitespace(c),
{
    c == ' ' || c == '\t' || c == '\n' || c == '\u{c}'
}

/// Skips whitespace from `pos`.
fn skip_ws(chars: &Vec<char>, pos: usize) -> (r: usize)
    requires
        pos <= chars@.len(),
    ensures
        r == ws_end(chars@, pos as int),
        pos <= r <= chars@.len(),
{
    proof {
        lemma_ws_end(chars@, pos as int);
    }
    let n = chars.len();
    let mut j = pos;
    while j < n && is_ws_char(chars[j])
        invariant
            pos <= j <= n,
            n == chars@.len(),
            ws_end(chars@, pos as int) == ws_end(chars@, j as int),
        decreases n - j,
    {
        j += 1;
    }
    j
}

/// Reads a numeric literal starting at the digit at `i`.
fn scan_number(chars: &Vec<char>, i: usize) -> (r: (Result<Token, ()>, usize))
    requires
        i < chars@.len(),
        is_digit(chars@[i as int], 10),
    ensures
        res_view(r.0) == number_token(chars@, i as int).0,
        r.1 == number_token(chars@, i as int).1,
{
    let n = chars.len();
    let c = chars[i];
    if c == '0' && i + 1 < n && (chars[i + 1] == 'x' || chars[i + 1] == 'X') && i + 2 < n
        && crate::numeric::digit_val(chars[i + 2], 16).is_some() {
        let end = digit_run(chars, i + 2, 16);
        let digits = collect_chars(chars, i + 2, end);
        match parse_number(&digits, 16) {
            Ok(v) => (Ok(Token::Number(v)), end),
            Err(_) => (Err(()), end),
        }
    } else if c == '0' && i + 1 < n && (chars[i + 1] == 'b' || chars[i + 1] == 'B') && i + 2 < n
        && crate::numeric::digit_val(chars[i + 2], 2).is_some() {
        let end = digit_run(chars, i + 2, 2);
        let digits = collect_chars(chars, i + 2, end);
        match parse_number(&digits, 2) {
            Ok(v) => (Ok(Token::Number(v)), end),
            Err(_) => (Err(()), end),
        }
    } else {
        let end = digit_run(chars, i, 10);
        let digits = collect_chars(chars, i, end);
        match parse_number(&digits, 10) {
            Ok(v) => (Ok(Token::Number(v)), end),
            Err(_) => (Err(()), end),
        }
    }
}

/// Reads the token made of the letter run starting at `i`.
fn scan_word(chars: &Vec<char>, i: usize) -> (r: (Result<Token, ()>, usize))
    requires
        i < chars@.len(),
        is_letter(chars@[i as int]),
    ensures
        res_view(r.0) == word_token(chars@, i as int).0,
        r.1 == word_token(chars@, i as int).1,
{
    let ghost s = chars@;
    let end = letter_run(chars, i);
    let n = chars.len();
    if end < n && chars[end] == ':' {
        let name = collect_string(chars, i, end);
        (Ok(Token::Label(name)), end + 1)
    } else if end - i == 3 && chars[i] == 'A' && chars[i + 1] == 'D' && chars[i + 2] == 'D' {
        (Ok(Token::Add), end)
    } else if end - i == 3 && chars[i] == 'S' && chars[i + 1] == 'U' && chars[i + 2] == 'B' {
        (Ok(Token::Sub), end)
    } else if end - i == 3 && chars[i] == 'A' && chars[i + 1] == 'N' && chars[i + 2] == 'D' {
        (Ok(Token::And), end)
    } else if end - i == 2 && chars[i] == 'O' && chars[i + 1] == 'R' {
        (Ok(Token::Or), end)
    } else if end - i == 3 && chars[i] == 'X' && chars[i + 1] == 'O' && chars[i + 2] == 'R' {
        (Ok(Token::Xor), end)
    } else if end - i == 3 && chars[i] == 'N' && chars[i + 1] == 'O' && chars[i + 2] == 'T' {
        (Ok(Token::Not), end)
    } else if end - i == 3 && chars[i] == 'J' && chars[i + 1] == 'M' && chars[i + 2] == 'P' {
        (Ok(Token::Jmp), end)
    } else if end - i == 1 && chars[i] == 'A' {
        (Ok(Token::A), end)
    } else if end - i == 1 && chars[i] == 'V' {
        (Ok(Token::V), end)
    } else if end - i == 1 && chars[i] == 'C' {
        (Ok(Token::C), end)
    } else {
        (Err(()), end)
    }
}

/// Reads the token starting at the non-whitespace position `i`.
fn scan_token(chars: &Vec<char>, i: usize) -> (r: (Result<Token, ()>, usize))
    requires
        i < chars@.len(),
    ensures
        res_view(r.0) == token_at(chars@, i as int).0,
        r.1 == token_at(chars@, i as int).1,
        i < r.1 <= chars@.len(),
{
    proof {
        lemma_token_at_advances(chars@, i as int);
    }
    let n = chars.len();
    let c = chars[i];
    if c == '+' {
        (Ok(Token::Add), i + 1)
    } else if c == '-' {
        (Ok(Token::Sub), i + 1)
    } else if c == '&' {
        (Ok(Token::And), i + 1)
    } else if c == '|' {
        (Ok(Token::Or), i + 1)
    } else if c == '^' {
        (Ok(Token::Xor), i + 1)
    } else if c == '~' {
        (Ok(Token::Not), i + 1)
    } else if c == '<' {
        if i + 1 < n && chars[i + 1] == '-' {
            (Ok(Token::Assignment), i + 2)
        } else if i + 1 < n && chars[i + 1] == '=' {
            (Ok(Token::Ltoeq), i + 2)
        } else {
            (Ok(Token::Lt), i + 1)
        }
    } else if c == '>' {
        if i + 1 < n && chars[i + 1] == '=' {
            (Ok(Token::Gtoeq), i + 2)
        } else {
            (Ok(Token::Gt), i + 1)
        }
    } else if c == '=' {
        if i + 1 < n && chars[i + 1] == '=' {
            (Ok(Token::Eq), i + 2)
        } else {
            (Err(()), i + 1)
        }
    } else if c == '!' {
        if i + 1 < n && chars[i + 1] == '=' {
            (Ok(Token::Neq), i + 2)
        } else {
            (Err(()), i + 1)
        }
    } else if c == '*' {
        if i + 1 < n && chars[i + 1] == 'A' {
            (Ok(Token::StarA), i + 2)
        } else if i + 1 < n && chars[i + 1] == 'V' {
            (Ok(Token::StarV), i + 2)
        } else {
            (Err(()), i + 1)
        }
    } else if crate::numeric::digit_val(c, 10).is_some() {
        scan_number(chars, i)
    } else if is_letter_char(c) {
        scan_word(chars, i)
    } else {
        (Err(()), i + 1)
    }
}

impl Token {
    /// Starts a lazy scan of `src`.
    pub fn lexer(src: &str) -> (lex: Lexer)
        ensures
            lex.src() == src@,
            lex.position() == 0,
            lex.wf(),
    {
        Lexer { chars: chars_of_str(src), pos: 0 }
    }
}

impl Lexer {
    /// Produces the next token, or `None` at the end of the text. The token
    /// read is the one the scan rules give at the first non-whitespace
    /// position.
    pub fn next(&mut self) -> (r: Option<Result<Token, ()>>)
        requires
            old(self).wf(),
        ensures
            final(self).wf(),
            final(self).src() == old(self).src(),
            ({
                let s = old(self).src();
                let j = ws_end(s, old(self).position());
                if j >= s.len() {
                    r is None && final(self).position() == s.len()
                } else {
                    &&& r is Some
                    &&& res_view(r->0) == token_at(s, j).0
                    &&& final(self).position() == token_at(s, j).1
                }
            }),
    {
        let j = skip_ws(&self.chars, self.pos);
        if j >= self.chars.len() {
            self.pos = j;
            None
        } else {
            let (t, end) = scan_token(&self.chars, j);
            self.pos = end;
            Some(t)
        }
    }
}

} // verus!
