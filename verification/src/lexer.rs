//! The tokenizer of the assembly language: it turns source text into a lazy
//! sequence of spanned tokens, resolving lexical ambiguity by maximal munch
//! with fixed priorities (two-character condition operators over the
//! assignment operator; keywords and single upper-case register names over
//! identifiers) and validating numeric literals against the architecture's
//! value range.

use crate::arch::{Cond, Op, Reg, MAX_LOAD_VALUE};
use crate::diag::Span;
use crate::numeric::{is_digit, parse_number, parse_number_spec};
use crate::scan::{
    chars_of_str, collect_chars, collect_string, digit_run, digit_run_end, is_letter,
    is_letter_char, is_upper, is_upper_char, lemma_digit_run, lemma_letter_run, lemma_nonnl_run,
    letter_run, letter_run_end, nonnl_run, nonnl_run_end,
};
use vstd::prelude::*;

verus! {

/// A lexical token. Every token is paired with the span it was read from.
#[derive(Debug, PartialEq)]
pub enum Token {
    Operation(Op),
    Condition(Cond),
    Value(u16),
    Directive(Dir),
    Register(Reg),
    Identifier(String),
    Comment,
}

/// A declaration directive: `DEFINE` introduces a constant, `:` closes a
/// label declaration.
#[derive(Clone, Copy, Debug, PartialEq, Eq, Structural)]
pub enum Dir {
    Define,
    Label,
}

/// The mathematical shape of a token: an identifier is its character
/// sequence.
pub enum TokenV {
    Operation(Op),
    Condition(Cond),
    Value(u16),
    Directive(Dir),
    Register(Reg),
    Identifier(Seq<char>),
    Comment,
}

impl View for Token {
    type V = TokenV;

    open spec fn view(&self) -> TokenV {
        match self {
            Token::Operation(op) => TokenV::Operation(*op),
            Token::Condition(c) => TokenV::Condition(*c),
            Token::Value(v) => TokenV::Value(*v),
            Token::Directive(d) => TokenV::Directive(*d),
            Token::Register(r) => TokenV::Register(*r),
            Token::Identifier(s) => TokenV::Identifier(s@),
            Token::Comment => TokenV::Comment,
        }
    }
}

/// The view of a lexing outcome: the error payload is unit.
pub open spec fn res_view(r: Result<Token, ()>) -> Result<TokenV, ()> {
    match r {
        Ok(t) => Ok(t@),
        Err(e) => Err(e),
    }
}

/// The views of a spanned token sequence.
pub open spec fn tokens_view(ts: Seq<(Result<Token, ()>, Span)>) -> Seq<
    (Result<TokenV, ()>, Span),
> {
    ts.map(|k: int, e: (Result<Token, ()>, Span)| (res_view(e.0), e.1))
}

/// The characters the tokenizer skips between tokens.
pub open spec fn is_whitespace(c: char) -> bool {
    c == ' ' || c == '\t' || c == '\r' || c == '\n' || c == '\u{c}'
}

/// The first position at or after `i` that holds no whitespace, or the end
/// of the text.
pub open spec fn ws_end(s: Seq<char>, i: int) -> int
    decreases s.len() - i,
    when 0 <= i <= s.len()
{
    if i < s.len() && is_whitespace(s[i]) {
        ws_end(s, i + 1)
    } else {
        i
    }
}

pub proof fn lemma_ws_end(s: Seq<char>, i: int)
    requires
        0 <= i <= s.len(),
    ensures
        i <= ws_end(s, i) <= s.len(),
        ws_end(s, i) < s.len() ==> !is_whitespace(s[ws_end(s, i)]),
        ws_end(s, ws_end(s, i)) == ws_end(s, i),
    decreases s.len() - i,
{
    if i < s.len() && is_whitespace(s[i]) {
        lemma_ws_end(s, i + 1);
    }
}

/// The operation a single operator character denotes.
pub open spec fn op_of_char(c: char) -> Op {
    if c == '+' {
        Op::Add
    } else if c == '-' {
        Op::Sub
    } else if c == '&' {
        Op::And
    } else if c == '|' {
        Op::Or
    } else if c == '^' {
        Op::Xor
    } else {
        Op::Not
    }
}

/// The register a single upper-case letter denotes, if any.
pub open spec fn reg_of_char(c: char) -> Option<Reg> {
    if c == 'A' {
        Some(Reg::A)
    } else if c == 'V' {
        Some(Reg::V)
    } else if c == 'D' {
        Some(Reg::D)
    } else if c == 'Z' {
        Some(Reg::Zero)
    } else if c == 'O' {
        Some(Reg::One)
    } else {
        None
    }
}

/// A numeric literal becomes a `Value` token when it parses and lies in
/// range; otherwise the literal's whole span is an error.
pub open spec fn value_or_err(digits: Seq<char>, radix: int) -> Result<TokenV, ()> {
    match parse_number_spec(digits, radix) {
        Ok(v) => Ok(TokenV::Value(v)),
        Err(_) => Err(()),
    }
}

/// The token read at a digit: a hexadecimal (`0x`) or binary (`0b`) literal
/// when its prefix is followed by at least one digit of that radix,
/// otherwise a decimal literal.
pub open spec fn number_token(s: Seq<char>, i: int) -> (Result<TokenV, ()>, int) {
    if s[i] == '0' && i + 1 < s.len() && s[i + 1] == 'x' && i + 2 < s.len() && is_digit(
        s[i + 2],
        16,
    ) {
        let end = digit_run_end(s, i + 2, 16);
        (value_or_err(s.subrange(i + 2, end), 16), end)
    } else if s[i] == '0' && i + 1 < s.len() && s[i + 1] == 'b' && i + 2 < s.len() && is_digit(
        s[i + 2],
        2,
    ) {
        let end = digit_run_end(s, i + 2, 2);
        (value_or_err(s.subrange(i + 2, end), 2), end)
    } else {
        let end = digit_run_end(s, i, 10);
        (value_or_err(s.subrange(i, end), 10), end)
    }
}

/// Whether `s[i..end]` is exactly the keyword `JMP`.
pub open spec fn is_jmp_run(s: Seq<char>, i: int, end: int) -> bool {
    end - i == 3 && s[i] == 'J' && s[i + 1] == 'M' && s[i + 2] == 'P'
}

/// Whether `s[i..end]` is exactly the keyword `DEFINE`.
pub open spec fn is_define_run(s: Seq<char>, i: int, end: int) -> bool {
    end - i == 6 && s[i] == 'D' && s[i + 1] == 'E' && s[i + 2] == 'F' && s[i + 3] == 'I' && s[i + 4]
        == 'N' && s[i + 5] == 'E'
}

/// The token read at a letter: the whole letter run is taken, then the
/// keywords win over register names, which win over identifiers; a single
/// upper-case letter that names no register is an error.
pub open spec fn word_token(s: Seq<char>, i: int) -> (Result<TokenV, ()>, int) {
    let end = letter_run_end(s, i);
    if is_jmp_run(s, i, end) {
        (Ok(TokenV::Condition(Cond::Jump)), end)
    } else if is_define_run(s, i, end) {
        (Ok(TokenV::Directive(Dir::Define)), end)
    } else if end == i + 1 && is_upper(s[i]) {
        match reg_of_char(s[i]) {
            Some(r) => (Ok(TokenV::Register(r)), end),
            None => (Err(()), end),
        }
    } else {
        (Ok(TokenV::Identifier(s.subrange(i, end))), end)
    }
}

/// The token starting at position `i` of the source, together with its end:
/// the disambiguation rules of the tokenizer in one place.
pub open spec fn token_at(s: Seq<char>, i: int) -> (Result<TokenV, ()>, int) {
    let c = s[i];
    if c == ';' {
        (Ok(TokenV::Comment), nonnl_run_end(s, i + 1))
    } else if c == '+' || c == '&' || c == '-' || c == '|' || c == '^' || c == '~' {
        (Ok(TokenV::Operation(op_of_char(c))), i + 1)
    } else if c == '=' {
        if i + 1 < s.len() && s[i + 1] == '=' {
            (Ok(TokenV::Condition(Cond::Eq)), i + 2)
        } else {
            (Ok(TokenV::Operation(Op::Assignement)), i + 1)
        }
    } else if c == '<' {
        if i + 1 < s.len() && s[i + 1] == '=' {
            (Ok(TokenV::Condition(Cond::LtEq)), i + 2)
        } else {
            (Ok(TokenV::Condition(Cond::Lt)), i + 1)
        }
    } else if c == '>' {
        if i + 1 < s.len() && s[i + 1] == '=' {
            (Ok(TokenV::Condition(Cond::GtEq)), i + 2)
        } else {
            (Ok(TokenV::Condition(Cond::Gt)), i + 1)
        }
    } else if c == '!' {
        if i + 1 < s.len() && s[i + 1] == '=' {
            (Ok(TokenV::Condition(Cond::Neq)), i + 2)
        } else {
            (Err(()), i + 1)
        }
    } else if c == ':' {
        (Ok(TokenV::Directive(Dir::Label)), i + 1)
    } else if c == '*' {
        if i + 1 < s.len() && is_upper(s[i + 1]) {
            if s[i + 1] == 'A' {
                (Ok(TokenV::Register(Reg::AStar)), i + 2)
            } else if s[i + 1] == 'V' {
                (Ok(TokenV::Register(Reg::VStar)), i + 2)
            } else {
                (Err(()), i + 2)
            }
        } else {
            (Err(()), i + 1)
        }
    } else if is_digit(c, 10) {
        number_token(s, i)
    } else if is_letter(c) {
        word_token(s, i)
    } else {
        (Err(()), i + 1)
    }
}

/// Every token covers at least one character and ends within the text.
pub proof fn lemma_token_at_advances(s: Seq<char>, i: int)
    requires
        0 <= i < s.len(),
    ensures
        i < token_at(s, i).1 <= s.len(),
{
    lemma_nonnl_run(s, i + 1);
    if is_digit(s[i], 10) {
        if s[i] == '0' && i + 1 < s.len() && s[i + 1] == 'x' && i + 2 < s.len() && is_digit(
            s[i + 2],
            16,
        ) {
            lemma_digit_run(s, i + 2, 16);
        } else if s[i] == '0' && i + 1 < s.len() && s[i + 1] == 'b' && i + 2 < s.len() && is_digit(
            s[i + 2],
            2,
        ) {
            lemma_digit_run(s, i + 2, 2);
        } else {
            lemma_digit_run(s, i, 10);
            if digit_run_end(s, i, 10) == i {
                assert(!is_digit(s[i], 10));
            }
        }
    } else if is_letter(s[i])  {
        lemma_letter_run(s, i);
        if letter_run_end(s, i) == i {
            assert(!is_letter(s[i]));
        }
    }
}

/// The full token sequence of the source text: whitespace is skipped, then
/// one token is read and the scan continues after it.
pub open spec fn lex_model(s: Seq<char>, i: int) -> Seq<(Result<TokenV, ()>, Span)>
    decreases s.len() - i,
    when 0 <= i <= s.len()
    via lex_model_dec
{
    let j = ws_end(s, i);
    if j >= s.len() {
        Seq::empty()
    } else {
        let (t, end) = token_at(s, j);
        seq![(t, Span { start: j as usize, end: end as usize })] + lex_model(s, end)
    }
}

#[via_fn]
proof fn lex_model_dec(s: Seq<char>, i: int) {
    lemma_ws_end(s, i);
    let j = ws_end(s, i);
    if j < s.len() {
        lemma_token_at_advances(s, j);
    }
}

/// A lazy, non-restartable scanner over the source text.
pub struct Lexer {
    chars: Vec<char>,
    pos: usize,
}

impl Lexer {
    /// The characters being scanned.
    pub closed spec fn src(&self) -> Seq<char> {
        self.chars@
    }

    /// The current scan position.
    pub closed spec fn position(&self) -> int {
        self.pos as int
    }

    /// The scan position never leaves the text.
    pub open spec fn wf(&self) -> bool {
        0 <= self.position() <= self.src().len()
    }
}

/// Whether the tokenizer skips `c` between tokens.
fn is_ws_char(c: char) -> (b: bool)
    ensures
        b == is_whitespace(c),
{
    c == ' ' || c == '\t' || c == '\r' || c == '\n' || c == '\u{c}'
}

/// Skips whitespace from `pos`.
fn skip_ws(chars: &Vec<char>, pos: usize) -> (r: usize)
    requires
        pos <= chars@.len(),
    ensures
        r == ws_end(chars@, pos as int),
        pos <= r <= chars@.len(),
{
    proof {
        lemma_ws_end(chars@, pos as int);
    }
    let n = chars.len();
    let mut j = pos;
    while j < n && is_ws_char(chars[j])
        invariant
            pos <= j <= n,
            n == chars@.len(),
            ws_end(chars@, pos as int) == ws_end(chars@, j as int),
        decreases n - j,
    {
        j += 1;
    }
    j
}

/// Reads the token starting at the non-whitespace position `i`.
fn scan_token(chars: &Vec<char>, i: usize) -> (r: (Result<Token, ()>, usize))
    requires
        i < chars@.len(),
    ensures
        res_view(r.0) == token_at(chars@, i as int).0,
        r.1 == token_at(chars@, i as int).1,
        i < r.1 <= chars@.len(),
{
    proof {
        lemma_token_at_advances(chars@, i as int);
    }
    let ghost s = chars@;
    let n = chars.len();
    let c = chars[i];
    if c == ';' {
        let end = nonnl_run(chars, i + 1);
        (Ok(Token::Comment), end)
    } else if c == '+' {
        (Ok(Token::Operation(Op::Add)), i + 1)
    } else if c == '&' {
        (Ok(Token::Operation(Op::And)), i + 1)
    } else if c == '-' {
        (Ok(Token::Operation(Op::Sub)), i + 1)
    } else if c == '|' {
        (Ok(Token::Operation(Op::Or)), i + 1)
    } else if c == '^' {
        (Ok(Token::Operation(Op::Xor)), i + 1)
    } else if c == '~' {
        (Ok(Token::Operation(Op::Not)), i + 1)
    } else if c == '=' {
        if i + 1 < n && chars[i + 1] == '=' {
            (Ok(Token::Condition(Cond::Eq)), i + 2)
        } else {
            (Ok(Token::Operation(Op::Assignement)), i + 1)
        }
    } else if c == '<' {
        if i + 1 < n && chars[i + 1] == '=' {
            (Ok(Token::Condition(Cond::LtEq)), i + 2)
        } else {
            (Ok(Token::Condition(Cond::Lt)), i + 1)
        }
    } else if c == '>' {
        if i + 1 < n && chars[i + 1] == '=' {
            (Ok(Token::Condition(Cond::GtEq)), i + 2)
        } else {
            (Ok(Token::Condition(Cond::Gt)), i + 1)
        }
    } else if c == '!' {
        if i + 1 < n && chars[i + 1] == '=' {
            (Ok(Token::Condition(Cond::Neq)), i + 2)
        } else {
            (Err(()), i + 1)
        }
    } else if c == ':' {
        (Ok(Token::Directive(Dir::Label)), i + 1)
    } else if c == '*' {
        if i + 1 < n && is_upper_char(chars[i + 1]) {
            if chars[i + 1] == 'A' {
                (Ok(Token::Register(Reg::AStar)), i + 2)
            } else if chars[i + 1] == 'V' {
                (Ok(Token::Register(Reg::VStar)), i + 2)
            } else {
                (Err(()), i + 2)
            }
        } else {
            (Err(()), i + 1)
        }
    } else if crate::numeric::digit_val(c, 10).is_some() {
        scan_number(chars, i)
    } else if is_letter_char(c) {
        scan_word(chars, i)
    } else {
        (Err(()), i + 1)
    }
}

/// Reads a numeric literal starting at the digit at `i`.
fn scan_number(chars: &Vec<char>, i: usize) -> (r: (Result<Token, ()>, usize))
    requires
        i < chars@.len(),
        is_digit(chars@[i as int], 10),
    ensures
        res_view(r.0) == number_token(chars@, i as int).0,
        r.1 == number_token(chars@, i as int).1,
{
    let ghost s = chars@;
    let n = chars.len();
    let c = chars[i];
    if c == '0' && i + 1 < n && chars[i + 1] == 'x' && i + 2 < n && crate::numeric::digit_val(
        chars[i + 2],
        16,
    ).is_some() {
        let end = digit_run(chars, i + 2, 16);
        let digits = collect_chars(chars, i + 2, end);
        match parse_number(&digits, 16) {
            Ok(v) => (Ok(Token::Value(v)), end),
            Err(_) => (Err(()), end),
        }
    } else if c == '0' && i + 1 < n && chars[i + 1] == 'b' && i + 2 < n
        && crate::numeric::digit_val(chars[i + 2], 2).is_some() {
        let end = digit_run(chars, i + 2, 2);
        let digits = collect_chars(chars, i + 2, end);
        match parse_number(&digits, 2) {
            Ok(v) => (Ok(Token::Value(v)), end),
            Err(_) => (Err(()), end),
        }
    } else {
        let end = digit_run(chars, i, 10);
        let digits = collect_chars(chars, i, end);
        match parse_number(&digits, 10) {
            Ok(v) => (Ok(Token::Value(v)), end),
            Err(_) => (Err(()), end),
        }
    }
}

/// Reads the token made of the letter run starting at `i`.
fn scan_word(chars: &Vec<char>, i: usize) -> (r: (Result<Token, ()>, usize))
    requires
        i < chars@.len(),
        is_letter(chars@[i as int]),
    ensures
        res_view(r.0) == word_token(chars@, i as int).0,
        r.1 == word_token(chars@, i as int).1,
{
    let ghost s = chars@;
    let end = letter_run(chars, i);
    proof {
        lemma_letter_run(s, i as int);
        if letter_run_end(s, i as int) == i {
            assert(!is_letter(s[i as int]));
        }
    }
    if end - i == 3 && chars[i] == 'J' && chars[i + 1] == 'M' && chars[i + 2] == 'P' {
        (Ok(Token::Condition(Cond::Jump)), end)
    } else if end - i == 6 && chars[i] == 'D' && chars[i + 1] == 'E' && chars[i + 2] == 'F'
        && chars[i + 3] == 'I' && chars[i + 4] == 'N' && chars[i + 5] == 'E' {
        (Ok(Token::Directive(Dir::Define)), end)
    } else if end == i + 1 && is_upper_char(chars[i]) {
        let c = chars[i];
        if c == 'A' {
            (Ok(Token::Register(Reg::A)), end)
        } else if c == 'V' {
            (Ok(Token::Register(Reg::V)), end)
        } else if c == 'D' {
            (Ok(Token::Register(Reg::D)), end)
        } else if c == 'Z' {
            (Ok(Token::Register(Reg::Zero)), end)
        } else if c == 'O' {
            (Ok(Token::Register(Reg::One)), end)
        } else {
            (Err(()), end)
        }
    } else {
        let name = collect_string(chars, i, end);
        (Ok(Token::Identifier(name)), end)
    }
}

impl Token {
    /// Starts a lazy scan of `src`.
    pub fn lexer(src: &str) -> (lex: Lexer)
        ensures
            lex.src() == src@,
            lex.position() == 0,
            lex.wf(),
    {
        Lexer { chars: chars_of_str(src), pos: 0 }
    }
}

impl Lexer {
    /// Produces the next token and its span, or `None` at the end of the
    /// text. The token read is the one the scan rules give at the first
    /// non-whitespace position.
    pub fn next(&mut self) -> (r: Option<Result<Token, ()>>)
        requires
            old(self).wf(),
        ensures
            final(self).wf(),
            final(self).src() == old(self).src(),
            ({
                let s = old(self).src();
                let j = ws_end(s, old(self).position());
                if j >= s.len() {
                    r is None && final(self).position() == s.len()
                } else {
                    &&& r is Some
                    &&& res_view(r->0) == token_at(s, j).0
                    &&& final(self).position() == token_at(s, j).1
                }
            }),
    {
        let j = skip_ws(&self.chars, self.pos);
        if j >= self.chars.len() {
            self.pos = j;
            None
        } else {
            let (t, end) = scan_token(&self.chars, j);
            self.pos = end;
            Some(t)
        }
    }
}

/// Tokenizes the whole source text into spanned results, eagerly.
pub fn tokenize(src: &str) -> (r: Vec<(Result<Token, ()>, Span)>)
    ensures
        tokens_view(r@) == lex_model(src@, 0),
{
    let chars = chars_of_str(src);
    let ghost s = chars@;
    let n = chars.len();
    let mut out: Vec<(Result<Token, ()>, Span)> = Vec::new();
    let mut j = skip_ws(&chars, 0);
    proof {
        lemma_ws_end(s, 0);
        lemma_lex_model_ws(s, 0);
    }
    while j < n
        invariant
            j <= n,
            n == s.len(),
            s == chars@,
            ws_end(s, j as int) == j,
            tokens_view(out@) + lex_model(s, j as int) =~= lex_model(s, 0),
        decreases n - j,
    {
        let (t, end) = scan_token(&chars, j);
        let ghost old_out = out@;
        out.push((t, Span { start: j, end }));
        proof {
            assert(tokens_view(out@) =~= tokens_view(old_out) + seq![
                (res_view(t), Span { start: j, end }),
            ]);
            assert(lex_model(s, j as int) == seq![
                (token_at(s, j as int).0, Span { start: j, end }),
            ] + lex_model(s, end as int));
            lemma_ws_end(s, end as int);
            lemma_lex_model_ws(s, end as int);
            assert(tokens_view(out@) + lex_model(s, ws_end(s, end as int)) =~= lex_model(s, 0));
        }
        j = skip_ws(&chars, end);
    }
    proof {
        assert(lex_model(s, j as int) =~= Seq::empty());
        assert(tokens_view(out@) =~= lex_model(s, 0));
    }
    out
}

/// Skipping whitespace first does not change what is lexed.
proof fn lemma_lex_model_ws(s: Seq<char>, i: int)
    requires
        0 <= i <= s.len(),
    ensures
        lex_model(s, i) == lex_model(s, ws_end(s, i)),
{
    lemma_ws_end(s, i);
}

/// Every `Value` token the tokenizer yields lies within the architecture's
/// loadable range.
pub proof fn lemma_lex_model_values_in_range(s: Seq<char>, i: int)
    requires
        0 <= i <= s.len(),
    ensures
        forall|k: int|
            0 <= k < lex_model(s, i).len() ==> (#[trigger] lex_model(s, i)[k].0 matches Ok(
                TokenV::Value(v),
            ) ==> v <= MAX_LOAD_VALUE),
    decreases s.len() - i,
{
    lemma_ws_end(s, i);
    let j = ws_end(s, i);
    if j < s.len() {
        lemma_token_at_advances(s, j);
        let t = token_at(s, j).0;
        let end = token_at(s, j).1;
        assert(lex_model(s, i) == seq![(t, Span { start: j as usize, end: end as usize })]
            + lex_model(s, end));
        lemma_lex_model_values_in_range(s, end);
        if is_digit(s[j], 10) {
            if s[j] == '0' && j + 1 < s.len() && s[j + 1] == 'x' && j + 2 < s.len() && is_digit(
                s[j + 2],
                16,
            ) {
                lemma_digit_run(s, j + 2, 16);
                crate::numeric::lemma_parse_ok_in_range(
                    s.subrange(j + 2, digit_run_end(s, j + 2, 16)),
                    16,
                );
            } else if s[j] == '0' && j + 1 < s.len() && s[j + 1] == 'b' && j + 2 < s.len()
                && is_digit(s[j + 2], 2) {
                lemma_digit_run(s, j + 2, 2);
                crate::numeric::lemma_parse_ok_in_range(
                    s.subrange(j + 2, digit_run_end(s, j + 2, 2)),
                    2,
                );
            } else {
                lemma_digit_run(s, j, 10);
                crate::numeric::lemma_parse_ok_in_range(
                    s.subrange(j, digit_run_end(s, j, 10)),
                    10,
                );
            }
        }
        assert forall|k: int| 0 <= k < lex_model(s, i).len() implies (#[trigger] lex_model(s, i)[k].0
            matches Ok(TokenV::Value(v)) ==> v <= MAX_LOAD_VALUE) by {
            if k == 0 {
                assert(lex_model(s, i)[0].0 == t);
            } else {
                assert(lex_model(s, i)[k] == lex_model(s, end)[k - 1]);
            }
        }
    }
}

} // verus!
