//! The instruction encoder and pattern matcher: a single left-to-right pass
//! consumes the token stream in windows of up to five tokens, recognizes one
//! of a closed set of instruction forms, validates the architecture's
//! semantic rules (register hazards, operator arity, immediate
//! destinations, name uniqueness), emits one 16-bit word per instruction —
//! deferring symbolic references as placeholders — and a second pass
//! resolves the placeholders against the completed symbol table. All
//! violations are collected as diagnostics; the pass never stops early.

use crate::arch::{
    data_word_chars, inst_word_chars, data_mode_format, inst_mode_format, Cond, Op, OpOrCond, Reg,
    MAX_LOAD_VALUE,
};
use crate::diag::{diags_view, DiagKind, Diagnostic, Span};
use crate::lexer::{lex_model, tokens_view, Token, TokenV};
use crate::symtab::{
    lemma_tab_find, tab_contains, tab_get, tab_mark, tab_vals_ok, unused_list, ColType,
    SymbolTable,
};
use vstd::prelude::*;
use vstd::string::StringExecFns;

verus! {

/// One entry of the word list: an encoded 16-character word, or a deferred
/// symbolic reference carried as the referenced name and its span.
#[derive(Debug)]
pub enum WordEntry {
    Encoded(String),
    Placeholder(String, Span),
}

/// The mathematical shape of a word-list entry.
pub enum WordV {
    Encoded(Seq<char>),
    Placeholder(Seq<char>, Span),
}

impl View for WordEntry {
    type V = WordV;

    open spec fn view(&self) -> WordV {
        match self {
            WordEntry::Encoded(s) => WordV::Encoded(s@),
            WordEntry::Placeholder(s, sp) => WordV::Placeholder(s@, *sp),
        }
    }
}

/// The views of a word list.
pub open spec fn words_view(ws: Seq<WordEntry>) -> Seq<WordV> {
    ws.map(|k: int, w: WordEntry| w@)
}

/// Every `Value` token of a well-formed stream lies in the loadable range.
pub open spec fn wf_tokens(toks: Seq<(Result<TokenV, ()>, Span)>) -> bool {
    forall|k: int|
        0 <= k < toks.len() ==> ((#[trigger] toks[k]).0 matches Ok(TokenV::Value(v)) ==> v
            <= MAX_LOAD_VALUE)
}

/// The tokenizer only hands `parse` well-formed streams.
pub proof fn lemma_lex_model_wf(s: Seq<char>)
    ensures
        wf_tokens(lex_model(s, 0)),
{
    crate::lexer::lemma_lex_model_values_in_range(s, 0);
}

/// The token the encoder sees at position `j`: past the end of the stream
/// it sees sentinel comments, so a full window can always be inspected.
pub open spec fn wtok(toks: Seq<(Result<TokenV, ()>, Span)>, j: int) -> (Result<TokenV, ()>, Span) {
    if 0 <= j < toks.len() {
        toks[j]
    } else {
        (Ok(TokenV::Comment), Span { start: 0, end: 0 })
    }
}

/// The register and span of a window slot, if it holds a register token.
pub open spec fn w_reg(w: (Result<TokenV, ()>, Span)) -> Option<(Reg, Span)> {
    match w.0 {
        Ok(TokenV::Register(r)) => Some((r, w.1)),
        _ => None,
    }
}

/// Whether a window slot holds the assignment operator.
pub open spec fn w_assign(w: (Result<TokenV, ()>, Span)) -> bool {
    w.0 == Ok::<TokenV, ()>(TokenV::Operation(Op::Assignement))
}

/// The operation and span of a window slot, if it holds a real (non
/// assignment) operation token.
pub open spec fn w_op(w: (Result<TokenV, ()>, Span)) -> Option<(Op, Span)> {
    match w.0 {
        Ok(TokenV::Operation(op)) => if op == Op::Assignement {
            None
        } else {
            Some((op, w.1))
        },
        _ => None,
    }
}

/// The condition and span of a window slot, if it holds a condition token.
pub open spec fn w_cond(w: (Result<TokenV, ()>, Span)) -> Option<(Cond, Span)> {
    match w.0 {
        Ok(TokenV::Condition(c)) => Some((c, w.1)),
        _ => None,
    }
}

/// The value and span of a window slot, if it holds a value token.
pub open spec fn w_value(w: (Result<TokenV, ()>, Span)) -> Option<(u16, Span)> {
    match w.0 {
        Ok(TokenV::Value(v)) => Some((v, w.1)),
        _ => None,
    }
}

/// The name and span of a window slot, if it holds an identifier token.
pub open spec fn w_ident(w: (Result<TokenV, ()>, Span)) -> Option<(Seq<char>, Span)> {
    match w.0 {
        Ok(TokenV::Identifier(s)) => Some((s, w.1)),
        _ => None,
    }
}

/// Whether a window slot holds the label directive.
pub open spec fn w_label_dir(w: (Result<TokenV, ()>, Span)) -> bool {
    w.0 == Ok::<TokenV, ()>(TokenV::Directive(crate::lexer::Dir::Label))
}

/// Whether a window slot holds the define directive.
pub open spec fn w_define_dir(w: (Result<TokenV, ()>, Span)) -> bool {
    w.0 == Ok::<TokenV, ()>(TokenV::Directive(crate::lexer::Dir::Define))
}

/// Whether a window slot holds a comment.
pub open spec fn w_comment(w: (Result<TokenV, ()>, Span)) -> bool {
    w.0 == Ok::<TokenV, ()>(TokenV::Comment)
}

/// The span of a window slot, if it holds a token the lexer rejected.
pub open spec fn w_err(w: (Result<TokenV, ()>, Span)) -> Option<Span> {
    match w.0 {
        Err(_) => Some(w.1),
        _ => None,
    }
}

/// The fixed word of the unconditional jump.
pub open spec fn jmp_word_chars() -> Seq<char> {
    seq!['0', '1', '1', '1', '0', '0', '0', '0', '0', '0', '0', '0', '0', '0', '0', '0']
}

/// The address counter after one more emitted word: it advances by one
/// 16-bit word and saturates at the maximum loadable value, beyond which no
/// label could be loaded as an immediate anyway.
pub open spec fn bump_adr(adr: u16) -> u16 {
    if adr + 16 <= MAX_LOAD_VALUE {
        (adr + 16) as u16
    } else {
        MAX_LOAD_VALUE
    }
}

/// What the binary ALU form `Reg <- Reg Op Reg` adds: hazard and arity
/// diagnostics, and the encoded word.
pub open spec fn case_binary(
    regc: Reg,
    spanc: Span,
    rega: Reg,
    spana: Span,
    op: Op,
    spanop: Span,
    regb: Reg,
    spanb: Span,
    adr: u16,
    words: Seq<WordV>,
    diags: Seq<(DiagKind, Seq<Span>)>,
) -> (u16, Seq<WordV>, Seq<(DiagKind, Seq<Span>)>) {
    let d1: Seq<(DiagKind, Seq<Span>)> = if regc == Reg::A && (rega == Reg::AStar || regb
        == Reg::AStar) {
        seq![(DiagKind::RegisterHazard, seq![spanc, Span { start: spana.start, end: spanb.end }])]
    } else {
        Seq::empty()
    };
    let d2: Seq<(DiagKind, Seq<Span>)> = if regc == Reg::V && (rega == Reg::VStar || regb
        == Reg::VStar) {
        seq![(DiagKind::RegisterHazard, seq![spanc, Span { start: spana.start, end: spanb.end }])]
    } else {
        Seq::empty()
    };
    let d3: Seq<(DiagKind, Seq<Span>)> = if op == Op::Not {
        seq![(DiagKind::WrongArity, seq![spana, spanop])]
    } else {
        Seq::empty()
    };
    (
        bump_adr(adr),
        words.push(WordV::Encoded(inst_word_chars(OpOrCond::Operation(op), rega, regb, regc))),
        diags + d1 + d2 + d3,
    )
}

/// What an immediate form adds when its destination is not register `A`.
pub open spec fn dest_diag(regc: Reg, spanc: Span) -> Seq<(DiagKind, Seq<Span>)> {
    if regc != Reg::A {
        seq![(DiagKind::InvalidImmediateDestination, seq![spanc])]
    } else {
        Seq::empty()
    }
}

/// What the register transfer form `Reg <- Reg` adds: hazard diagnostics
/// and an implicit `Or` with `Zero`.
pub open spec fn case_transfer(
    regc: Reg,
    spanc: Span,
    rega: Reg,
    spana: Span,
    adr: u16,
    words: Seq<WordV>,
    diags: Seq<(DiagKind, Seq<Span>)>,
) -> (u16, Seq<WordV>, Seq<(DiagKind, Seq<Span>)>) {
    let d1: Seq<(DiagKind, Seq<Span>)> = if regc == Reg::A && rega == Reg::AStar {
        seq![(DiagKind::RegisterHazard, seq![spanc, spana])]
    } else {
        Seq::empty()
    };
    let d2: Seq<(DiagKind, Seq<Span>)> = if regc == Reg::V && rega == Reg::VStar {
        seq![(DiagKind::RegisterHazard, seq![spanc, spana])]
    } else {
        Seq::empty()
    };
    (
        bump_adr(adr),
        words.push(WordV::Encoded(inst_word_chars(OpOrCond::Operation(Op::Or), rega, Reg::Zero, regc))),
        diags + d1 + d2,
    )
}

/// What the unary form `Reg <- Op Reg` adds: an arity error for any
/// operator but `~`, hazard diagnostics, and the encoded word.
pub open spec fn case_unary(
    regc: Reg,
    spanc: Span,
    op: Op,
    spanop: Span,
    rega: Reg,
    spana: Span,
    adr: u16,
    words: Seq<WordV>,
    diags: Seq<(DiagKind, Seq<Span>)>,
) -> (u16, Seq<WordV>, Seq<(DiagKind, Seq<Span>)>) {
    let d1: Seq<(DiagKind, Seq<Span>)> = if op != Op::Not {
        seq![(DiagKind::WrongArity, seq![spanop, spana])]
    } else {
        Seq::empty()
    };
    let d2: Seq<(DiagKind, Seq<Span>)> = if regc == Reg::A && rega == Reg::AStar {
        seq![(DiagKind::RegisterHazard, seq![spanc, spana])]
    } else {
        Seq::empty()
    };
    let d3: Seq<(DiagKind, Seq<Span>)> = if regc == Reg::V && rega == Reg::VStar {
        seq![(DiagKind::RegisterHazard, seq![spanc, spana])]
    } else {
        Seq::empty()
    };
    (
        bump_adr(adr),
        words.push(WordV::Encoded(inst_word_chars(OpOrCond::Operation(op), rega, Reg::A, regc))),
        diags + d1 + d2 + d3,
    )
}

/// What declaring `id` with value `val` adds: a new entry when the name is
/// absent, a duplicate-declaration error labeling both spans when it is not.
pub open spec fn case_declare(
    id: Seq<char>,
    span: Span,
    val: u16,
    tab: Seq<(Seq<char>, ColType)>,
    diags: Seq<(DiagKind, Seq<Span>)>,
) -> (Seq<(Seq<char>, ColType)>, Seq<(DiagKind, Seq<Span>)>) {
    if !tab_contains(tab, id) {
        (tab.push((id, ColType { val, span, visited: false })), diags)
    } else {
        (tab, diags.push((DiagKind::DuplicateDeclaration, seq![tab_get(tab, id).span, span])))
    }
}

/// The forward pass over the token stream, from position `i` with the
/// address counter, symbol table, word list and diagnostics accumulated so
/// far: the first matching instruction form decides what is emitted,
/// declared or reported, and how far the window advances.
pub open spec fn run_model(
    toks: Seq<(Result<TokenV, ()>, Span)>,
    i: int,
    adr: u16,
    tab: Seq<(Seq<char>, ColType)>,
    words: Seq<WordV>,
    diags: Seq<(DiagKind, Seq<Span>)>,
) -> (Seq<WordV>, Seq<(Seq<char>, ColType)>, Seq<(DiagKind, Seq<Span>)>)
    decreases toks.len() - i,
    when 0 <= i
{
    if i >= toks.len() {
        (words, tab, diags)
    } else {
        let w0 = wtok(toks, i);
        let w1 = wtok(toks, i + 1);
        let w2 = wtok(toks, i + 2);
        let w3 = wtok(toks, i + 3);
        let w4 = wtok(toks, i + 4);
        if w_reg(w0) is Some && w_assign(w1) && w_reg(w2) is Some && w_op(w3) is Some && w_reg(w4)
            is Some {
            let u = case_binary(
                (w_reg(w0)->0).0,
                (w_reg(w0)->0).1,
                (w_reg(w2)->0).0,
                (w_reg(w2)->0).1,
                (w_op(w3)->0).0,
                (w_op(w3)->0).1,
                (w_reg(w4)->0).0,
                (w_reg(w4)->0).1,
                adr,
                words,
                diags,
            );
            run_model(toks, i + 5, u.0, tab, u.1, u.2)
        } else if w_reg(w0) is Some && w_assign(w1) && w_ident(w2) is Some {
            // Immediate via symbol: Reg <- Identifier, deferred
            run_model(
                toks,
                i + 3,
                bump_adr(adr),
                tab,
                words.push(WordV::Placeholder((w_ident(w2)->0).0, (w_ident(w2)->0).1)),
                diags + dest_diag((w_reg(w0)->0).0, (w_reg(w0)->0).1),
            )
        } else if w_reg(w0) is Some && w_assign(w1) && w_value(w2) is Some {
            // Immediate literal: Reg <- Value
            run_model(
                toks,
                i + 3,
                bump_adr(adr),
                tab,
                words.push(WordV::Encoded(data_word_chars((w_value(w2)->0).0))),
                diags + dest_diag((w_reg(w0)->0).0, (w_reg(w0)->0).1),
            )
        } else if w_reg(w0) is Some && w_assign(w1) && w_reg(w2) is Some {
            let u = case_transfer(
                (w_reg(w0)->0).0,
                (w_reg(w0)->0).1,
                (w_reg(w2)->0).0,
                (w_reg(w2)->0).1,
                adr,
                words,
                diags,
            );
            run_model(toks, i + 3, u.0, tab, u.1, u.2)
        } else if w_reg(w0) is Some && w_assign(w1) && w_op(w2) is Some && w_reg(w3) is Some {
            let u = case_unary(
                (w_reg(w0)->0).0,
                (w_reg(w0)->0).1,
                (w_op(w2)->0).0,
                (w_op(w2)->0).1,
                (w_reg(w3)->0).0,
                (w_reg(w3)->0).1,
                adr,
                words,
                diags,
            );
            run_model(toks, i + 4, u.0, tab, u.1, u.2)
        } else if w_reg(w0) is Some && w_cond(w1) is Some {
            // Condition test: Reg Cond, a test of the register against zero
            run_model(
                toks,
                i + 2,
                bump_adr(adr),
                tab,
                words.push(
                    WordV::Encoded(
                        inst_word_chars(
                            OpOrCond::Condition((w_cond(w1)->0).0),
                            (w_reg(w0)->0).0,
                            Reg::Zero,
                            Reg::Zero,
                        ),
                    ),
                ),
                diags,
            )
        } else if w_cond(w0) is Some && (w_cond(w0)->0).0 == Cond::Jump {
            // Unconditional jump: its word is fixed
            run_model(
                toks,
                i + 1,
                bump_adr(adr),
                tab,
                words.push(WordV::Encoded(jmp_word_chars())),
                diags,
            )
        } else if w_ident(w0) is Some && w_label_dir(w1) {
            // Label declaration: the name takes the current address
            let u = case_declare((w_ident(w0)->0).0, (w_ident(w0)->0).1, adr, tab, diags);
            run_model(toks, i + 2, adr, u.0, words, u.1)
        } else if w_define_dir(w0) && w_ident(w1) is Some && w_value(w2) is Some {
            // Constant declaration: the name takes the literal value
            let u = case_declare(
                (w_ident(w1)->0).0,
                (w_ident(w1)->0).1,
                (w_value(w2)->0).0,
                tab,
                diags,
            );
            run_model(toks, i + 3, adr, u.0, words, u.1)
        } else if w_comment(w0) {
            run_model(toks, i + 1, adr, tab, words, diags)
        } else if w_err(w0) is Some {
            // A token the lexer rejected: report it and resynchronize
            run_model(
                toks,
                i + 1,
                adr,
                tab,
                words,
                diags.push((DiagKind::UnrecognizedToken, seq![w_err(w0)->0])),
            )
        } else {
            // No instruction form matches: report the shape and resynchronize
            run_model(
                toks,
                i + 1,
                adr,
                tab,
                words,
                diags.push((DiagKind::UnrecognizedShape, seq![w0.1])),
            )
        }
    }
}

/// The resolution pass over the word list, from entry `k`: encoded words
/// pass through; a placeholder resolves against the table, marking the
/// symbol used, or — when the name was never declared — becomes the visibly
/// invalid marker `E` and an error.
pub open spec fn resolve_model(
    words: Seq<WordV>,
    k: int,
    tab: Seq<(Seq<char>, ColType)>,
    outs: Seq<Seq<char>>,
    diags: Seq<(DiagKind, Seq<Span>)>,
) -> (Seq<Seq<char>>, Seq<(Seq<char>, ColType)>, Seq<(DiagKind, Seq<Span>)>)
    decreases words.len() - k,
    when 0 <= k
{
    if k >= words.len() {
        (outs, tab, diags)
    } else {
        match words[k] {
            WordV::Encoded(w) => resolve_model(words, k + 1, tab, outs.push(w), diags),
            WordV::Placeholder(name, span) => if tab_contains(tab, name) {
                resolve_model(
                    words,
                    k + 1,
                    tab_mark(tab, name),
                    outs.push(data_word_chars(tab_get(tab, name).val)),
                    diags,
                )
            } else {
                resolve_model(
                    words,
                    k + 1,
                    tab,
                    outs.push(seq!['E']),
                    diags.push((DiagKind::UnresolvedIdentifier, seq![span])),
                )
            },
        }
    }
}

/// One warning per declared-but-never-used symbol, labeling its declaration
/// span, in declaration order.
pub open spec fn unused_diags(tab: Seq<(Seq<char>, ColType)>) -> Seq<(DiagKind, Seq<Span>)> {
    unused_list(tab).map(|k: int, e: (Seq<char>, Span)| (DiagKind::UnusedDeclaration, seq![e.1]))
}

/// The emitted words joined by the separator.
pub open spec fn join_chars(ss: Seq<Seq<char>>, sep: Seq<char>) -> Seq<char>
    decreases ss.len(),
{
    if ss.len() == 0 {
        Seq::empty()
    } else if ss.len() == 1 {
        ss[0]
    } else {
        join_chars(ss.drop_last(), sep) + sep + ss.last()
    }
}

/// What one assembly run yields: the full model of `parse`.
pub open spec fn parse_model(toks: Seq<(Result<TokenV, ()>, Span)>) -> (
    Seq<Seq<char>>,
    Seq<(Seq<char>, ColType)>,
    Seq<(DiagKind, Seq<Span>)>,
) {
    let m = run_model(toks, 0, 0, Seq::empty(), Seq::empty(), Seq::empty());
    let r = resolve_model(m.0, 0, m.1, Seq::empty(), m.2);
    (r.0, r.1, r.2 + unused_diags(r.1))
}

/// Everything one assembly run returns: the final bit stream, the collected
/// diagnostics, and the symbol table as the run left it.
#[derive(Debug)]
pub struct ParserReport {
    pub bit_stream: String,
    pub report: Vec<Diagnostic>,
    pub id_collect: SymbolTable,
}


/// The views of a list of emitted word strings.
pub open spec fn strs_view(ss: Seq<String>) -> Seq<Seq<char>> {
    ss.map(|k: int, s: String| s@)
}

/// A diagnostic with one labeled span.
fn diag1(kind: DiagKind, message: String, span: Span, label: &str, help: Option<String>) -> (d:
    Diagnostic)
    ensures
        d.model() == (kind, seq![span]),
        d.wf(),
{
    let mut labels: Vec<(Span, String)> = Vec::new();
    labels.push((span, String::from_str(label)));
    let d = Diagnostic::build(kind, message, labels, help);
    proof {
        assert(d.label_spans() =~= seq![span]);
    }
    d
}

/// A diagnostic with two labeled spans.
fn diag2(
    kind: DiagKind,
    message: String,
    span1: Span,
    label1: &str,
    span2: Span,
    label2: &str,
    help: Option<String>,
) -> (d: Diagnostic)
    ensures
        d.model() == (kind, seq![span1, span2]),
        d.wf(),
{
    let mut labels: Vec<(Span, String)> = Vec::new();
    labels.push((span1, String::from_str(label1)));
    labels.push((span2, String::from_str(label2)));
    let d = Diagnostic::build(kind, message, labels, help);
    proof {
        assert(d.label_spans() =~= seq![span1, span2]);
    }
    d
}

/// The register token in the window slot `base + off`, if any.
fn probe_reg(tokens: &Vec<(Result<Token, ()>, Span)>, base: usize, off: usize) -> (r: Option<
    (Reg, Span),
>)
    requires
        base <= tokens@.len(),
    ensures
        r == w_reg(wtok(tokens_view(tokens@), base + off)),
{
    let n = tokens.len();
    if off < n - base {
        let t = &tokens[base + off];
        match &t.0 {
            Ok(Token::Register(rg)) => Some((*rg, t.1)),
            _ => None,
        }
    } else {
        None
    }
}

/// Whether the window slot `base + off` holds the assignment operator.
fn probe_assign(tokens: &Vec<(Result<Token, ()>, Span)>, base: usize, off: usize) -> (r: bool)
    requires
        base <= tokens@.len(),
    ensures
        r == w_assign(wtok(tokens_view(tokens@), base + off)),
{
    let n = tokens.len();
    if off < n - base {
        let t = &tokens[base + off];
        match &t.0 {
            Ok(Token::Operation(op)) => *op == Op::Assignement,
            _ => false,
        }
    } else {
        false
    }
}

/// The non-assignment operation token in the window slot `base + off`.
fn probe_op(tokens: &Vec<(Result<Token, ()>, Span)>, base: usize, off: usize) -> (r: Option<
    (Op, Span),
>)
    requires
        base <= tokens@.len(),
    ensures
        r == w_op(wtok(tokens_view(tokens@), base + off)),
{
    let n = tokens.len();
    if off < n - base {
        let t = &tokens[base + off];
        match &t.0 {
            Ok(Token::Operation(op)) => if *op == Op::Assignement {
                None
            } else {
                Some((*op, t.1))
            },
            _ => None,
        }
    } else {
        None
    }
}

/// The condition token in the window slot `base + off`, if any.
fn probe_cond(tokens: &Vec<(Result<Token, ()>, Span)>, base: usize, off: usize) -> (r: Option<
    (Cond, Span),
>)
    requires
        base <= tokens@.len(),
    ensures
        r == w_cond(wtok(tokens_view(tokens@), base + off)),
{
    let n = tokens.len();
    if off < n - base {
        let t = &tokens[base + off];
        match &t.0 {
            Ok(Token::Condition(c)) => Some((*c, t.1)),
            _ => None,
        }
    } else {
        None
    }
}

/// The value token in the window slot `base + off`, if any.
fn probe_value(tokens: &Vec<(Result<Token, ()>, Span)>, base: usize, off: usize) -> (r: Option<
    (u16, Span),
>)
    requires
        base <= tokens@.len(),
    ensures
        r == w_value(wtok(tokens_view(tokens@), base + off)),
{
    let n = tokens.len();
    if off < n - base {
        let t = &tokens[base + off];
        match &t.0 {
            Ok(Token::Value(v)) => Some((*v, t.1)),
            _ => None,
        }
    } else {
        None
    }
}

/// The identifier token in the window slot `base + off`, cloned out.
fn probe_ident(tokens: &Vec<(Result<Token, ()>, Span)>, base: usize, off: usize) -> (r: Option<
    (String, Span),
>)
    requires
        base <= tokens@.len(),
    ensures
        ({
            let w = w_ident(wtok(tokens_view(tokens@), base + off));
            match r {
                Some(p) => w is Some && p.0@ == (w->0).0 && p.1 == (w->0).1,
                None => w is None,
            }
        }),
{
    let n = tokens.len();
    if off < n - base {
        let t = &tokens[base + off];
        match &t.0 {
            Ok(Token::Identifier(s)) => Some((s.clone(), t.1)),
            _ => None,
        }
    } else {
        None
    }
}

/// Whether the window slot `base + off` holds the label directive.
fn probe_label_dir(tokens: &Vec<(Result<Token, ()>, Span)>, base: usize, off: usize) -> (r: bool)
    requires
        base <= tokens@.len(),
    ensures
        r == w_label_dir(wtok(tokens_view(tokens@), base + off)),
{
    let n = tokens.len();
    if off < n - base {
        let t = &tokens[base + off];
        match &t.0 {
            Ok(Token::Directive(d)) => *d == crate::lexer::Dir::Label,
            _ => false,
        }
    } else {
        false
    }
}

/// Whether the window slot `base + off` holds the define directive.
fn probe_define_dir(tokens: &Vec<(Result<Token, ()>, Span)>, base: usize, off: usize) -> (r: bool)
    requires
        base <= tokens@.len(),
    ensures
        r == w_define_dir(wtok(tokens_view(tokens@), base + off)),
{
    let n = tokens.len();
    if off < n - base {
        let t = &tokens[base + off];
        match &t.0 {
            Ok(Token::Directive(d)) => *d == crate::lexer::Dir::Define,
            _ => false,
        }
    } else {
        false
    }
}

/// Whether the window slot `base + off` holds a comment (the slots past the
/// end of the stream count as sentinel comments).
fn probe_comment(tokens: &Vec<(Result<Token, ()>, Span)>, base: usize, off: usize) -> (r: bool)
    requires
        base <= tokens@.len(),
    ensures
        r == w_comment(wtok(tokens_view(tokens@), base + off)),
{
    let n = tokens.len();
    if off < n - base {
        let t = &tokens[base + off];
        match &t.0 {
            Ok(Token::Comment) => true,
            _ => false,
        }
    } else {
        true
    }
}

/// The span of a rejected token in the window slot `base + off`, if any.
fn probe_err(tokens: &Vec<(Result<Token, ()>, Span)>, base: usize, off: usize) -> (r: Option<Span>)
    requires
        base <= tokens@.len(),
    ensures
        r == w_err(wtok(tokens_view(tokens@), base + off)),
{
    let n = tokens.len();
    if off < n - base {
        let t = &tokens[base + off];
        match &t.0 {
            Err(_) => Some(t.1),
            _ => None,
        }
    } else {
        None
    }
}

/// The span of the window slot `base + off`.
fn span_at(tokens: &Vec<(Result<Token, ()>, Span)>, base: usize, off: usize) -> (r: Span)
    requires
        base <= tokens@.len(),
    ensures
        r == wtok(tokens_view(tokens@), base + off).1,
{
    let n = tokens.len();
    if off < n - base {
        tokens[base + off].1
    } else {
        Span { start: 0, end: 0 }
    }
}

/// The address counter after one more emitted word.
fn bump_adr_exec(adr: u16) -> (r: u16)
    ensures
        r == bump_adr(adr),
{
    if adr <= MAX_LOAD_VALUE - 16 {
        adr + 16
    } else {
        MAX_LOAD_VALUE
    }
}

/// The display name of a register, for remediation hints.
fn reg_name(reg: Reg) -> String {
    match reg {
        Reg::A => String::from_str("A"),
        Reg::V => String::from_str("V"),
        Reg::AStar => String::from_str("*A"),
        Reg::VStar => String::from_str("*V"),
        Reg::D => String::from_str("D"),
        Reg::Zero => String::from_str("Z"),
        Reg::One => String::from_str("O"),
    }
}

/// The remediation hint for an immediate loaded into the wrong register:
/// the required two-instruction substitute, by way of register `A`.
fn two_step_hint(operand: &str, regc: Reg) -> String {
    let mut h = String::from_str("Consider using this: \nA = ");
    h.append(operand);
    h.append("\n");
    h.append(reg_name(regc).as_str());
    h.append(" = A");
    h
}

/// Joins the emitted words with the separator.
fn join_words(outs: &Vec<String>, sep: &str) -> (r: String)
    ensures
        r@ == join_chars(strs_view(outs@), sep@),
{
    let ghost ss = strs_view(outs@);
    let n = outs.len();
    let mut r = String::new();
    let mut k: usize = 0;
    while k < n
        invariant
            0 <= k <= n,
            n == ss.len(),
            ss == strs_view(outs@),
            r@ == join_chars(ss.take(k as int), sep@),
        decreases n - k,
    {
        if k > 0 {
            r.append(sep);
        }
        r.append(outs[k].as_str());
        k += 1;
        proof {
            assert(ss.take(k as int).drop_last() =~= ss.take(k - 1));
            assert(ss.take(k as int).last() == ss[k - 1]);
            if k == 1 {
                assert(r@ =~= join_chars(ss.take(k as int), sep@));
            } else {
                assert(r@ =~= join_chars(ss.take(k as int), sep@));
            }
        }
    }
    proof {
        assert(ss.take(n as int) =~= ss);
    }
    r
}


/// One forward step on the binary ALU form.
proof fn lemma_step_binary(
    toks: Seq<(Result<TokenV, ()>, Span)>,
    i: int,
    adr: u16,
    tab: Seq<(Seq<char>, ColType)>,
    words: Seq<WordV>,
    diags: Seq<(DiagKind, Seq<Span>)>,
    regc: Reg,
    spanc: Span,
    rega: Reg,
    spana: Span,
    op: Op,
    spanop: Span,
    regb: Reg,
    spanb: Span,
)
    requires
        0 <= i < toks.len(),
        w_reg(wtok(toks, i)) == Some((regc, spanc)),
        w_assign(wtok(toks, i + 1)),
        w_reg(wtok(toks, i + 2)) == Some((rega, spana)),
        w_op(wtok(toks, i + 3)) == Some((op, spanop)),
        w_reg(wtok(toks, i + 4)) == Some((regb, spanb)),
    ensures
        ({
            let u = case_binary(regc, spanc, rega, spana, op, spanop, regb, spanb, adr, words, diags);
            run_model(toks, i, adr, tab, words, diags) == run_model(toks, i + 5, u.0, tab, u.1, u.2)
        }),
        i + 5 <= toks.len(),
{
    if i + 4 >= toks.len() {
        assert(w_reg(wtok(toks, i + 4)) is None);
    }
}

/// One forward step on the deferred immediate form.
proof fn lemma_step_imm_symbol(
    toks: Seq<(Result<TokenV, ()>, Span)>,
    i: int,
    adr: u16,
    tab: Seq<(Seq<char>, ColType)>,
    words: Seq<WordV>,
    diags: Seq<(DiagKind, Seq<Span>)>,
    regc: Reg,
    spanc: Span,
    id: Seq<char>,
    spanid: Span,
)
    requires
        0 <= i < toks.len(),
        w_reg(wtok(toks, i)) == Some((regc, spanc)),
        w_assign(wtok(toks, i + 1)),
        w_ident(wtok(toks, i + 2)) == Some((id, spanid)),
    ensures
        run_model(toks, i, adr, tab, words, diags) == run_model(
            toks,
            i + 3,
            bump_adr(adr),
            tab,
            words.push(WordV::Placeholder(id, spanid)),
            diags + dest_diag(regc, spanc),
        ),
        i + 3 <= toks.len(),
{
    if i + 2 >= toks.len() {
        assert(w_ident(wtok(toks, i + 2)) is None);
    }
}

/// One forward step on the literal immediate form.
proof fn lemma_step_imm_literal(
    toks: Seq<(Result<TokenV, ()>, Span)>,
    i: int,
    adr: u16,
    tab: Seq<(Seq<char>, ColType)>,
    words: Seq<WordV>,
    diags: Seq<(DiagKind, Seq<Span>)>,
    regc: Reg,
    spanc: Span,
    val: u16,
)
    requires
        0 <= i < toks.len(),
        w_reg(wtok(toks, i)) == Some((regc, spanc)),
        w_assign(wtok(toks, i + 1)),
        w_value(wtok(toks, i + 2)) is Some,
        (w_value(wtok(toks, i + 2))->0).0 == val,
    ensures
        run_model(toks, i, adr, tab, words, diags) == run_model(
            toks,
            i + 3,
            bump_adr(adr),
            tab,
            words.push(WordV::Encoded(data_word_chars(val))),
            diags + dest_diag(regc, spanc),
        ),
        i + 3 <= toks.len(),
{
    if i + 2 >= toks.len() {
        assert(w_value(wtok(toks, i + 2)) is None);
    }
}

/// One forward step on the register transfer form.
proof fn lemma_step_transfer(
    toks: Seq<(Result<TokenV, ()>, Span)>,
    i: int,
    adr: u16,
    tab: Seq<(Seq<char>, ColType)>,
    words: Seq<WordV>,
    diags: Seq<(DiagKind, Seq<Span>)>,
    regc: Reg,
    spanc: Span,
    rega: Reg,
    spana: Span,
)
    requires
        0 <= i < toks.len(),
        w_reg(wtok(toks, i)) == Some((regc, spanc)),
        w_assign(wtok(toks, i + 1)),
        w_reg(wtok(toks, i + 2)) == Some((rega, spana)),
        !(w_op(wtok(toks, i + 3)) is Some && w_reg(wtok(toks, i + 4)) is Some),
    ensures
        ({
            let u = case_transfer(regc, spanc, rega, spana, adr, words, diags);
            run_model(toks, i, adr, tab, words, diags) == run_model(toks, i + 3, u.0, tab, u.1, u.2)
        }),
        i + 3 <= toks.len(),
{
    if i + 2 >= toks.len() {
        assert(w_reg(wtok(toks, i + 2)) is None);
    }
}

/// One forward step on the unary form.
proof fn lemma_step_unary(
    toks: Seq<(Result<TokenV, ()>, Span)>,
    i: int,
    adr: u16,
    tab: Seq<(Seq<char>, ColType)>,
    words: Seq<WordV>,
    diags: Seq<(DiagKind, Seq<Span>)>,
    regc: Reg,
    spanc: Span,
    op: Op,
    spanop: Span,
    rega: Reg,
    spana: Span,
)
    requires
        0 <= i < toks.len(),
        w_reg(wtok(toks, i)) == Some((regc, spanc)),
        w_assign(wtok(toks, i + 1)),
        w_op(wtok(toks, i + 2)) == Some((op, spanop)),
        w_reg(wtok(toks, i + 3)) == Some((rega, spana)),
    ensures
        ({
            let u = case_unary(regc, spanc, op, spanop, rega, spana, adr, words, diags);
            run_model(toks, i, adr, tab, words, diags) == run_model(toks, i + 4, u.0, tab, u.1, u.2)
        }),
        i + 4 <= toks.len(),
{
    if i + 3 >= toks.len() {
        assert(w_reg(wtok(toks, i + 3)) is None);
    }
}

/// One forward step on the condition test form.
proof fn lemma_step_condition(
    toks: Seq<(Result<TokenV, ()>, Span)>,
    i: int,
    adr: u16,
    tab: Seq<(Seq<char>, ColType)>,
    words: Seq<WordV>,
    diags: Seq<(DiagKind, Seq<Span>)>,
    rega: Reg,
    cond: Cond,
)
    requires
        0 <= i < toks.len(),
        w_reg(wtok(toks, i)) is Some,
        (w_reg(wtok(toks, i))->0).0 == rega,
        w_cond(wtok(toks, i + 1)) is Some,
        (w_cond(wtok(toks, i + 1))->0).0 == cond,
    ensures
        run_model(toks, i, adr, tab, words, diags) == run_model(
            toks,
            i + 2,
            bump_adr(adr),
            tab,
            words.push(
                WordV::Encoded(inst_word_chars(OpOrCond::Condition(cond), rega, Reg::Zero, Reg::Zero)),
            ),
            diags,
        ),
        i + 2 <= toks.len(),
{
    if i + 1 >= toks.len() {
        assert(w_cond(wtok(toks, i + 1)) is None);
    }
}

/// One forward step on the unconditional jump.
proof fn lemma_step_jump(
    toks: Seq<(Result<TokenV, ()>, Span)>,
    i: int,
    adr: u16,
    tab: Seq<(Seq<char>, ColType)>,
    words: Seq<WordV>,
    diags: Seq<(DiagKind, Seq<Span>)>,
)
    requires
        0 <= i < toks.len(),
        w_cond(wtok(toks, i)) is Some,
        (w_cond(wtok(toks, i))->0).0 == Cond::Jump,
    ensures
        run_model(toks, i, adr, tab, words, diags) == run_model(
            toks,
            i + 1,
            bump_adr(adr),
            tab,
            words.push(WordV::Encoded(jmp_word_chars())),
            diags,
        ),
        i + 1 <= toks.len(),
{
}

/// One forward step on a label declaration.
pub proof fn lemma_step_label_decl(
    toks: Seq<(Result<TokenV, ()>, Span)>,
    i: int,
    adr: u16,
    tab: Seq<(Seq<char>, ColType)>,
    words: Seq<WordV>,
    diags: Seq<(DiagKind, Seq<Span>)>,
    id: Seq<char>,
    span: Span,
)
    requires
        0 <= i < toks.len(),
        w_ident(wtok(toks, i)) == Some((id, span)),
        w_label_dir(wtok(toks, i + 1)),
    ensures
        ({
            let u = case_declare(id, span, adr, tab, diags);
            run_model(toks, i, adr, tab, words, diags) == run_model(toks, i + 2, adr, u.0, words, u.1)
        }),
        i + 2 <= toks.len(),
{
    if i + 1 >= toks.len() {
        assert(!w_label_dir(wtok(toks, i + 1)));
    }
}

/// One forward step on a constant declaration.
pub proof fn lemma_step_const_decl(
    toks: Seq<(Result<TokenV, ()>, Span)>,
    i: int,
    adr: u16,
    tab: Seq<(Seq<char>, ColType)>,
    words: Seq<WordV>,
    diags: Seq<(DiagKind, Seq<Span>)>,
    id: Seq<char>,
    span: Span,
    val: u16,
)
    requires
        0 <= i < toks.len(),
        w_define_dir(wtok(toks, i)),
        w_ident(wtok(toks, i + 1)) == Some((id, span)),
        w_value(wtok(toks, i + 2)) is Some,
        (w_value(wtok(toks, i + 2))->0).0 == val,
    ensures
        ({
            let u = case_declare(id, span, val, tab, diags);
            run_model(toks, i, adr, tab, words, diags) == run_model(toks, i + 3, adr, u.0, words, u.1)
        }),
        i + 3 <= toks.len(),
{
    if i + 2 >= toks.len() {
        assert(w_value(wtok(toks, i + 2)) is None);
    }
}

/// One forward step over a comment.
proof fn lemma_step_comment(
    toks: Seq<(Result<TokenV, ()>, Span)>,
    i: int,
    adr: u16,
    tab: Seq<(Seq<char>, ColType)>,
    words: Seq<WordV>,
    diags: Seq<(DiagKind, Seq<Span>)>,
)
    requires
        0 <= i < toks.len(),
        w_comment(wtok(toks, i)),
    ensures
        run_model(toks, i, adr, tab, words, diags) == run_model(toks, i + 1, adr, tab, words, diags),
{
}

/// One forward step over a token the lexer rejected.
proof fn lemma_step_err(
    toks: Seq<(Result<TokenV, ()>, Span)>,
    i: int,
    adr: u16,
    tab: Seq<(Seq<char>, ColType)>,
    words: Seq<WordV>,
    diags: Seq<(DiagKind, Seq<Span>)>,
    sp: Span,
)
    requires
        0 <= i < toks.len(),
        w_err(wtok(toks, i)) == Some(sp),
    ensures
        run_model(toks, i, adr, tab, words, diags) == run_model(
            toks,
            i + 1,
            adr,
            tab,
            words,
            diags.push((DiagKind::UnrecognizedToken, seq![sp])),
        ),
{
}

/// One forward step where no instruction form matches.
proof fn lemma_step_shape(
    toks: Seq<(Result<TokenV, ()>, Span)>,
    i: int,
    adr: u16,
    tab: Seq<(Seq<char>, ColType)>,
    words: Seq<WordV>,
    diags: Seq<(DiagKind, Seq<Span>)>,
)
    requires
        0 <= i < toks.len(),
        !(w_reg(wtok(toks, i)) is Some && w_assign(wtok(toks, i + 1)) && w_reg(wtok(toks, i + 2))
            is Some && w_op(wtok(toks, i + 3)) is Some && w_reg(wtok(toks, i + 4)) is Some),
        !(w_reg(wtok(toks, i)) is Some && w_assign(wtok(toks, i + 1)) && w_ident(
            wtok(toks, i + 2),
        ) is Some),
        !(w_reg(wtok(toks, i)) is Some && w_assign(wtok(toks, i + 1)) && w_value(
            wtok(toks, i + 2),
        ) is Some),
        !(w_reg(wtok(toks, i)) is Some && w_assign(wtok(toks, i + 1)) && w_reg(wtok(toks, i + 2))
            is Some),
        !(w_reg(wtok(toks, i)) is Some && w_assign(wtok(toks, i + 1)) && w_op(wtok(toks, i + 2))
            is Some && w_reg(wtok(toks, i + 3)) is Some),
        !(w_reg(wtok(toks, i)) is Some && w_cond(wtok(toks, i + 1)) is Some),
        !(w_cond(wtok(toks, i)) is Some && (w_cond(wtok(toks, i))->0).0 == Cond::Jump),
        !(w_ident(wtok(toks, i)) is Some && w_label_dir(wtok(toks, i + 1))),
        !(w_define_dir(wtok(toks, i)) && w_ident(wtok(toks, i + 1)) is Some && w_value(
            wtok(toks, i + 2),
        ) is Some),
        !w_comment(wtok(toks, i)),
        w_err(wtok(toks, i)) is None,
    ensures
        run_model(toks, i, adr, tab, words, diags) == run_model(
            toks,
            i + 1,
            adr,
            tab,
            words,
            diags.push((DiagKind::UnrecognizedShape, seq![wtok(toks, i).1])),
        ),
{
}

/// Emits the binary ALU form `Reg <- Reg Op Reg`.
fn do_binary(
    tokens: &Vec<(Result<Token, ()>, Span)>,
    i: usize,
    adr: u16,
    words: &mut Vec<WordEntry>,
    diags: &mut Vec<Diagnostic>,
    Ghost(tab): Ghost<Seq<(Seq<char>, ColType)>>,
    regc: Reg,
    spanc: Span,
    rega: Reg,
    spana: Span,
    op: Op,
    spanop: Span,
    regb: Reg,
    spanb: Span,
) -> (r: (usize, u16))
    requires
        i < tokens@.len(),
        w_reg(wtok(tokens_view(tokens@), i as int)) == Some((regc, spanc)),
        w_assign(wtok(tokens_view(tokens@), i as int + 1)),
        w_reg(wtok(tokens_view(tokens@), i as int + 2)) == Some((rega, spana)),
        w_op(wtok(tokens_view(tokens@), i as int + 3)) == Some((op, spanop)),
        w_reg(wtok(tokens_view(tokens@), i as int + 4)) == Some((regb, spanb)),
        adr <= MAX_LOAD_VALUE,
        forall|k: int| 0 <= k < old(diags)@.len() ==> (#[trigger] old(diags)@[k]).wf(),
    ensures
        i < r.0 <= tokens@.len(),
        r.1 <= MAX_LOAD_VALUE,
        forall|k: int| 0 <= k < final(diags)@.len() ==> (#[trigger] final(diags)@[k]).wf(),
        run_model(
            tokens_view(tokens@),
            i as int,
            adr,
            tab,
            words_view(old(words)@),
            diags_view(old(diags)@),
        ) == run_model(
            tokens_view(tokens@),
            r.0 as int,
            r.1,
            tab,
            words_view(final(words)@),
            diags_view(final(diags)@),
        ),
{
    let ghost tv = tokens_view(tokens@);
    let n_toks = tokens.len();
    let ghost i0 = i as int;
    let ghost wv0 = words_view(words@);
    let ghost dv0 = diags_view(diags@);
    let ghost d1: Seq<(DiagKind, Seq<Span>)> = if regc == Reg::A && (rega == Reg::AStar || regb
        == Reg::AStar) {
        seq![(DiagKind::RegisterHazard, seq![spanc, Span { start: spana.start, end: spanb.end }])]
    } else {
        Seq::empty()
    };
    let ghost d2: Seq<(DiagKind, Seq<Span>)> = if regc == Reg::V && (rega == Reg::VStar || regb
        == Reg::VStar) {
        seq![(DiagKind::RegisterHazard, seq![spanc, Span { start: spana.start, end: spanb.end }])]
    } else {
        Seq::empty()
    };
    let ghost d3: Seq<(DiagKind, Seq<Span>)> = if op == Op::Not {
        seq![(DiagKind::WrongArity, seq![spana, spanop])]
    } else {
        Seq::empty()
    };
    if regc == Reg::A && (rega == Reg::AStar || regb == Reg::AStar) {
        diags.push(
            diag2(
                DiagKind::RegisterHazard,
                String::from_str("Can't change A value when reading *A"),
                spanc,
                "This",
                Span { start: spana.start, end: spanb.end },
                "and this are incompatible",
                None,
            ),
        );
    }
    if regc == Reg::V && (rega == Reg::VStar || regb == Reg::VStar) {
        diags.push(
            diag2(
                DiagKind::RegisterHazard,
                String::from_str("Can't change V value when reading *V"),
                spanc,
                "This",
                Span { start: spana.start, end: spanb.end },
                "and this are incompatible",
                None,
            ),
        );
    }
    if op == Op::Not {
        diags.push(
            diag2(
                DiagKind::WrongArity,
                String::from_str("Too many operands for ~"),
                spana,
                "Excessive operand",
                spanop,
                "with operation ~",
                Some(String::from_str("Try removing the first operand")),
            ),
        );
    }
    words.push(WordEntry::Encoded(inst_mode_format(OpOrCond::Operation(op), rega, regb, regc)));
    proof {
        assert(diags_view(diags@) =~= dv0 + d1 + d2 + d3);
        assert(words_view(words@) =~= wv0.push(
            WordV::Encoded(inst_word_chars(OpOrCond::Operation(op), rega, regb, regc)),
        ));
        lemma_step_binary(tv, i0, adr, tab, wv0, dv0, regc, spanc, rega, spana, op, spanop, regb, spanb);
        assert(case_binary(regc, spanc, rega, spana, op, spanop, regb, spanb, adr, wv0, dv0) == (
            bump_adr(adr),
            wv0.push(WordV::Encoded(inst_word_chars(OpOrCond::Operation(op), rega, regb, regc))),
            dv0 + d1 + d2 + d3,
        ));
    }
    (i + 5, bump_adr_exec(adr))
}

/// Defers the immediate form `Reg <- Identifier` as a placeholder.
fn do_imm_symbol(
    tokens: &Vec<(Result<Token, ()>, Span)>,
    i: usize,
    adr: u16,
    words: &mut Vec<WordEntry>,
    diags: &mut Vec<Diagnostic>,
    Ghost(tab): Ghost<Seq<(Seq<char>, ColType)>>,
    regc: Reg,
    spanc: Span,
    id: String,
    spanid: Span,
) -> (r: (usize, u16))
    requires
        i < tokens@.len(),
        w_reg(wtok(tokens_view(tokens@), i as int)) == Some((regc, spanc)),
        w_assign(wtok(tokens_view(tokens@), i as int + 1)),
        w_ident(wtok(tokens_view(tokens@), i as int + 2)) == Some((id@, spanid)),
        adr <= MAX_LOAD_VALUE,
        forall|k: int| 0 <= k < old(diags)@.len() ==> (#[trigger] old(diags)@[k]).wf(),
    ensures
        i < r.0 <= tokens@.len(),
        r.1 <= MAX_LOAD_VALUE,
        forall|k: int| 0 <= k < final(diags)@.len() ==> (#[trigger] final(diags)@[k]).wf(),
        run_model(
            tokens_view(tokens@),
            i as int,
            adr,
            tab,
            words_view(old(words)@),
            diags_view(old(diags)@),
        ) == run_model(
            tokens_view(tokens@),
            r.0 as int,
            r.1,
            tab,
            words_view(final(words)@),
            diags_view(final(diags)@),
        ),
{
    let ghost tv = tokens_view(tokens@);
    let n_toks = tokens.len();
    let ghost i0 = i as int;
    let ghost wv0 = words_view(words@);
    let ghost dv0 = diags_view(diags@);
    let ghost idv = id@;
    let ghost d: Seq<(DiagKind, Seq<Span>)> = if regc != Reg::A {
        seq![(DiagKind::InvalidImmediateDestination, seq![spanc])]
    } else {
        Seq::empty()
    };
    if regc != Reg::A {
        let hint = two_step_hint(id.as_str(), regc);
        diags.push(
            diag1(
                DiagKind::InvalidImmediateDestination,
                String::from_str("Can't push direct value into other register than A"),
                spanc,
                "This should be A",
                Some(hint),
            ),
        );
    }
    words.push(WordEntry::Placeholder(id, spanid));
    proof {
        assert(diags_view(diags@) =~= dv0 + d);
        assert(words_view(words@) =~= wv0.push(WordV::Placeholder(idv, spanid)));
        lemma_step_imm_symbol(tv, i0, adr, tab, wv0, dv0, regc, spanc, idv, spanid);
        assert(dest_diag(regc, spanc) == d);
    }
    (i + 3, bump_adr_exec(adr))
}

/// Emits the immediate form `Reg <- Value`.
fn do_imm_literal(
    tokens: &Vec<(Result<Token, ()>, Span)>,
    i: usize,
    adr: u16,
    words: &mut Vec<WordEntry>,
    diags: &mut Vec<Diagnostic>,
    Ghost(tab): Ghost<Seq<(Seq<char>, ColType)>>,
    regc: Reg,
    spanc: Span,
    val: u16,
) -> (r: (usize, u16))
    requires
        i < tokens@.len(),
        w_reg(wtok(tokens_view(tokens@), i as int)) == Some((regc, spanc)),
        w_assign(wtok(tokens_view(tokens@), i as int + 1)),
        w_value(wtok(tokens_view(tokens@), i as int + 2)) is Some,
        (w_value(wtok(tokens_view(tokens@), i as int + 2))->0).0 == val,
        val <= MAX_LOAD_VALUE,
        adr <= MAX_LOAD_VALUE,
        forall|k: int| 0 <= k < old(diags)@.len() ==> (#[trigger] old(diags)@[k]).wf(),
    ensures
        i < r.0 <= tokens@.len(),
        r.1 <= MAX_LOAD_VALUE,
        forall|k: int| 0 <= k < final(diags)@.len() ==> (#[trigger] final(diags)@[k]).wf(),
        run_model(
            tokens_view(tokens@),
            i as int,
            adr,
            tab,
            words_view(old(words)@),
            diags_view(old(diags)@),
        ) == run_model(
            tokens_view(tokens@),
            r.0 as int,
            r.1,
            tab,
            words_view(final(words)@),
            diags_view(final(diags)@),
        ),
{
    let ghost tv = tokens_view(tokens@);
    let n_toks = tokens.len();
    let ghost i0 = i as int;
    let ghost wv0 = words_view(words@);
    let ghost dv0 = diags_view(diags@);
    let ghost d: Seq<(DiagKind, Seq<Span>)> = if regc != Reg::A {
        seq![(DiagKind::InvalidImmediateDestination, seq![spanc])]
    } else {
        Seq::empty()
    };
    if regc != Reg::A {
        let hint = two_step_hint("the value", regc);
        diags.push(
            diag1(
                DiagKind::InvalidImmediateDestination,
                String::from_str("Can't push direct value into other register than A"),
                spanc,
                "This should be A",
                Some(hint),
            ),
        );
    }
    words.push(WordEntry::Encoded(data_mode_format(val)));
    proof {
        assert(diags_view(diags@) =~= dv0 + d);
        assert(words_view(words@) =~= wv0.push(WordV::Encoded(data_word_chars(val))));
        lemma_step_imm_literal(tv, i0, adr, tab, wv0, dv0, regc, spanc, val);
        assert(dest_diag(regc, spanc) == d);
    }
    (i + 3, bump_adr_exec(adr))
}

/// Emits the register transfer form `Reg <- Reg`.
fn do_transfer(
    tokens: &Vec<(Result<Token, ()>, Span)>,
    i: usize,
    adr: u16,
    words: &mut Vec<WordEntry>,
    diags: &mut Vec<Diagnostic>,
    Ghost(tab): Ghost<Seq<(Seq<char>, ColType)>>,
    regc: Reg,
    spanc: Span,
    rega: Reg,
    spana: Span,
) -> (r: (usize, u16))
    requires
        i < tokens@.len(),
        w_reg(wtok(tokens_view(tokens@), i as int)) == Some((regc, spanc)),
        w_assign(wtok(tokens_view(tokens@), i as int + 1)),
        w_reg(wtok(tokens_view(tokens@), i as int + 2)) == Some((rega, spana)),
        !(w_op(wtok(tokens_view(tokens@), i as int + 3)) is Some && w_reg(
            wtok(tokens_view(tokens@), i as int + 4),
        ) is Some),
        adr <= MAX_LOAD_VALUE,
        forall|k: int| 0 <= k < old(diags)@.len() ==> (#[trigger] old(diags)@[k]).wf(),
    ensures
        i < r.0 <= tokens@.len(),
        r.1 <= MAX_LOAD_VALUE,
        forall|k: int| 0 <= k < final(diags)@.len() ==> (#[trigger] final(diags)@[k]).wf(),
        run_model(
            tokens_view(tokens@),
            i as int,
            adr,
            tab,
            words_view(old(words)@),
            diags_view(old(diags)@),
        ) == run_model(
            tokens_view(tokens@),
            r.0 as int,
            r.1,
            tab,
            words_view(final(words)@),
            diags_view(final(diags)@),
        ),
{
    let ghost tv = tokens_view(tokens@);
    let n_toks = tokens.len();
    let ghost i0 = i as int;
    let ghost wv0 = words_view(words@);
    let ghost dv0 = diags_view(diags@);
    let ghost d1: Seq<(DiagKind, Seq<Span>)> = if regc == Reg::A && rega == Reg::AStar {
        seq![(DiagKind::RegisterHazard, seq![spanc, spana])]
    } else {
        Seq::empty()
    };
    let ghost d2: Seq<(DiagKind, Seq<Span>)> = if regc == Reg::V && rega == Reg::VStar {
        seq![(DiagKind::RegisterHazard, seq![spanc, spana])]
    } else {
        Seq::empty()
    };
    if regc == Reg::A && rega == Reg::AStar {
        diags.push(
            diag2(
                DiagKind::RegisterHazard,
                String::from_str("Can't change A value when reading *A"),
                spanc,
                "This",
                spana,
                "and this are incompatible",
                None,
            ),
        );
    }
    if regc == Reg::V && rega == Reg::VStar {
        diags.push(
            diag2(
                DiagKind::RegisterHazard,
                String::from_str("Can't change V value when reading *V"),
                spanc,
                "This",
                spana,
                "and this are incompatible",
                None,
            ),
        );
    }
    words.push(
        WordEntry::Encoded(inst_mode_format(OpOrCond::Operation(Op::Or), rega, Reg::Zero, regc)),
    );
    proof {
        assert(diags_view(diags@) =~= dv0 + d1 + d2);
        assert(words_view(words@) =~= wv0.push(
            WordV::Encoded(inst_word_chars(OpOrCond::Operation(Op::Or), rega, Reg::Zero, regc)),
        ));
        lemma_step_transfer(tv, i0, adr, tab, wv0, dv0, regc, spanc, rega, spana);
        assert(case_transfer(regc, spanc, rega, spana, adr, wv0, dv0) == (
            bump_adr(adr),
            wv0.push(
                WordV::Encoded(inst_word_chars(OpOrCond::Operation(Op::Or), rega, Reg::Zero, regc)),
            ),
            dv0 + d1 + d2,
        ));
    }
    (i + 3, bump_adr_exec(adr))
}

/// Emits the unary form `Reg <- Op Reg`.
fn do_unary(
    tokens: &Vec<(Result<Token, ()>, Span)>,
    i: usize,
    adr: u16,
    words: &mut Vec<WordEntry>,
    diags: &mut Vec<Diagnostic>,
    Ghost(tab): Ghost<Seq<(Seq<char>, ColType)>>,
    regc: Reg,
    spanc: Span,
    op: Op,
    spanop: Span,
    rega: Reg,
    spana: Span,
) -> (r: (usize, u16))
    requires
        i < tokens@.len(),
        w_reg(wtok(tokens_view(tokens@), i as int)) == Some((regc, spanc)),
        w_assign(wtok(tokens_view(tokens@), i as int + 1)),
        w_op(wtok(tokens_view(tokens@), i as int + 2)) == Some((op, spanop)),
        w_reg(wtok(tokens_view(tokens@), i as int + 3)) == Some((rega, spana)),
        adr <= MAX_LOAD_VALUE,
        forall|k: int| 0 <= k < old(diags)@.len() ==> (#[trigger] old(diags)@[k]).wf(),
    ensures
        i < r.0 <= tokens@.len(),
        r.1 <= MAX_LOAD_VALUE,
        forall|k: int| 0 <= k < final(diags)@.len() ==> (#[trigger] final(diags)@[k]).wf(),
        run_model(
            tokens_view(tokens@),
            i as int,
            adr,
            tab,
            words_view(old(words)@),
            diags_view(old(diags)@),
        ) == run_model(
            tokens_view(tokens@),
            r.0 as int,
            r.1,
            tab,
            words_view(final(words)@),
            diags_view(final(diags)@),
        ),
{
    let ghost tv = tokens_view(tokens@);
    let n_toks = tokens.len();
    let ghost i0 = i as int;
    let ghost wv0 = words_view(words@);
    let ghost dv0 = diags_view(diags@);
    let ghost d1: Seq<(DiagKind, Seq<Span>)> = if op != Op::Not {
        seq![(DiagKind::WrongArity, seq![spanop, spana])]
    } else {
        Seq::empty()
    };
    let ghost d2: Seq<(DiagKind, Seq<Span>)> = if regc == Reg::A && rega == Reg::AStar {
        seq![(DiagKind::RegisterHazard, seq![spanc, spana])]
    } else {
        Seq::empty()
    };
    let ghost d3: Seq<(DiagKind, Seq<Span>)> = if regc == Reg::V && rega == Reg::VStar {
        seq![(DiagKind::RegisterHazard, seq![spanc, spana])]
    } else {
        Seq::empty()
    };
    if op != Op::Not {
        diags.push(
            diag2(
                DiagKind::WrongArity,
                String::from_str("Expected a single-operand operation"),
                spanop,
                "this operation takes two operands",
                spana,
                "single operand here",
                None,
            ),
        );
    }
    if regc == Reg::A && rega == Reg::AStar {
        diags.push(
            diag2(
                DiagKind::RegisterHazard,
                String::from_str("Can't change A value when reading *A"),
                spanc,
                "This",
                spana,
                "and this are incompatible",
                None,
            ),
        );
    }
    if regc == Reg::V && rega == Reg::VStar {
        diags.push(
            diag2(
                DiagKind::RegisterHazard,
                String::from_str("Can't change V value when reading *V"),
                spanc,
                "This",
                spana,
                "and this are incompatible",
                None,
            ),
        );
    }
    words.push(WordEntry::Encoded(inst_mode_format(OpOrCond::Operation(op), rega, Reg::A, regc)));
    proof {
        assert(diags_view(diags@) =~= dv0 + d1 + d2 + d3);
        assert(words_view(words@) =~= wv0.push(
            WordV::Encoded(inst_word_chars(OpOrCond::Operation(op), rega, Reg::A, regc)),
        ));
        lemma_step_unary(tv, i0, adr, tab, wv0, dv0, regc, spanc, op, spanop, rega, spana);
        assert(case_unary(regc, spanc, op, spanop, rega, spana, adr, wv0, dv0) == (
            bump_adr(adr),
            wv0.push(WordV::Encoded(inst_word_chars(OpOrCond::Operation(op), rega, Reg::A, regc))),
            dv0 + d1 + d2 + d3,
        ));
    }
    (i + 4, bump_adr_exec(adr))
}

/// Emits the condition test form `Reg Cond`.
fn do_condition(
    tokens: &Vec<(Result<Token, ()>, Span)>,
    i: usize,
    adr: u16,
    words: &mut Vec<WordEntry>,
    Ghost(tab): Ghost<Seq<(Seq<char>, ColType)>>,
    Ghost(dv): Ghost<Seq<(DiagKind, Seq<Span>)>>,
    rega: Reg,
    cond: Cond,
) -> (r: (usize, u16))
    requires
        i < tokens@.len(),
        w_reg(wtok(tokens_view(tokens@), i as int)) is Some,
        (w_reg(wtok(tokens_view(tokens@), i as int))->0).0 == rega,
        w_cond(wtok(tokens_view(tokens@), i as int + 1)) is Some,
        (w_cond(wtok(tokens_view(tokens@), i as int + 1))->0).0 == cond,
        adr <= MAX_LOAD_VALUE,
    ensures
        i < r.0 <= tokens@.len(),
        r.1 <= MAX_LOAD_VALUE,
        run_model(tokens_view(tokens@), i as int, adr, tab, words_view(old(words)@), dv)
            == run_model(tokens_view(tokens@), r.0 as int, r.1, tab, words_view(final(words)@), dv),
{
    let ghost tv = tokens_view(tokens@);
    let n_toks = tokens.len();
    let ghost i0 = i as int;
    let ghost wv0 = words_view(words@);
    words.push(
        WordEntry::Encoded(inst_mode_format(OpOrCond::Condition(cond), rega, Reg::Zero, Reg::Zero)),
    );
    proof {
        assert(words_view(words@) =~= wv0.push(
            WordV::Encoded(inst_word_chars(OpOrCond::Condition(cond), rega, Reg::Zero, Reg::Zero)),
        ));
        lemma_step_condition(tv, i0, adr, tab, wv0, dv, rega, cond);
    }
    (i + 2, bump_adr_exec(adr))
}

/// Emits the fixed word of the unconditional jump.
fn do_jump(
    tokens: &Vec<(Result<Token, ()>, Span)>,
    i: usize,
    adr: u16,
    words: &mut Vec<WordEntry>,
    Ghost(tab): Ghost<Seq<(Seq<char>, ColType)>>,
    Ghost(dv): Ghost<Seq<(DiagKind, Seq<Span>)>>,
) -> (r: (usize, u16))
    requires
        i < tokens@.len(),
        w_cond(wtok(tokens_view(tokens@), i as int)) is Some,
        (w_cond(wtok(tokens_view(tokens@), i as int))->0).0 == Cond::Jump,
        adr <= MAX_LOAD_VALUE,
    ensures
        i < r.0 <= tokens@.len(),
        r.1 <= MAX_LOAD_VALUE,
        run_model(tokens_view(tokens@), i as int, adr, tab, words_view(old(words)@), dv)
            == run_model(tokens_view(tokens@), r.0 as int, r.1, tab, words_view(final(words)@), dv),
{
    let ghost tv = tokens_view(tokens@);
    let n_toks = tokens.len();
    let ghost i0 = i as int;
    let ghost wv0 = words_view(words@);
    proof {
        reveal_strlit("0111000000000000");
    }
    let w = String::from_str("0111000000000000");
    proof {
        assert(w@ =~= jmp_word_chars());
    }
    words.push(WordEntry::Encoded(w));
    proof {
        assert(words_view(words@) =~= wv0.push(WordV::Encoded(jmp_word_chars())));
        lemma_step_jump(tv, i0, adr, tab, wv0, dv);
    }
    (i + 1, bump_adr_exec(adr))
}

/// Declares a label at the current address, or reports the duplicate.
fn do_label_decl(
    tokens: &Vec<(Result<Token, ()>, Span)>,
    i: usize,
    adr: u16,
    st: &mut SymbolTable,
    diags: &mut Vec<Diagnostic>,
    Ghost(wv): Ghost<Seq<WordV>>,
    id: String,
    span: Span,
) -> (r: usize)
    requires
        i < tokens@.len(),
        w_ident(wtok(tokens_view(tokens@), i as int)) == Some((id@, span)),
        w_label_dir(wtok(tokens_view(tokens@), i as int + 1)),
        adr <= MAX_LOAD_VALUE,
        old(st).wf(),
        tab_vals_ok(old(st)@),
        forall|k: int| 0 <= k < old(diags)@.len() ==> (#[trigger] old(diags)@[k]).wf(),
    ensures
        i < r <= tokens@.len(),
        final(st).wf(),
        tab_vals_ok(final(st)@),
        forall|k: int| 0 <= k < final(diags)@.len() ==> (#[trigger] final(diags)@[k]).wf(),
        run_model(tokens_view(tokens@), i as int, adr, old(st)@, wv, diags_view(old(diags)@))
            == run_model(
            tokens_view(tokens@),
            r as int,
            adr,
            final(st)@,
            wv,
            diags_view(final(diags)@),
        ),
{
    let ghost tv = tokens_view(tokens@);
    let n_toks = tokens.len();
    let ghost i0 = i as int;
    let ghost tab0 = st@;
    let ghost dv0 = diags_view(diags@);
    let ghost idv = id@;
    match st.declare(&id, adr, span) {
        Ok(_) => {
            proof {
                assert(st@ =~= tab0.push((idv, ColType { val: adr, span, visited: false })));
                assert(tab_vals_ok(st@));
                lemma_step_label_decl(tv, i0, adr, tab0, wv, dv0, idv, span);
                assert(case_declare(idv, span, adr, tab0, dv0) == (
                    tab0.push((idv, ColType { val: adr, span, visited: false })),
                    dv0,
                ));
            }
        },
        Err(prev_span) => {
            diags.push(
                diag2(
                    DiagKind::DuplicateDeclaration,
                    String::from_str("Identifier already declared"),
                    prev_span,
                    "previously declared here",
                    span,
                    "declared there",
                    None,
                ),
            );
            proof {
                assert(diags_view(diags@) =~= dv0.push(
                    (DiagKind::DuplicateDeclaration, seq![prev_span, span]),
                ));
                lemma_step_label_decl(tv, i0, adr, tab0, wv, dv0, idv, span);
                assert(case_declare(idv, span, adr, tab0, dv0) == (
                    tab0,
                    dv0.push((DiagKind::DuplicateDeclaration, seq![prev_span, span])),
                ));
            }
        },
    }
    i + 2
}

/// Declares a constant with its literal value, or reports the duplicate.
fn do_const_decl(
    tokens: &Vec<(Result<Token, ()>, Span)>,
    i: usize,
    adr: u16,
    st: &mut SymbolTable,
    diags: &mut Vec<Diagnostic>,
    Ghost(wv): Ghost<Seq<WordV>>,
    id: String,
    span: Span,
    val: u16,
) -> (r: usize)
    requires
        i < tokens@.len(),
        w_define_dir(wtok(tokens_view(tokens@), i as int)),
        w_ident(wtok(tokens_view(tokens@), i as int + 1)) == Some((id@, span)),
        w_value(wtok(tokens_view(tokens@), i as int + 2)) is Some,
        (w_value(wtok(tokens_view(tokens@), i as int + 2))->0).0 == val,
        val <= MAX_LOAD_VALUE,
        old(st).wf(),
        tab_vals_ok(old(st)@),
        forall|k: int| 0 <= k < old(diags)@.len() ==> (#[trigger] old(diags)@[k]).wf(),
    ensures
        i < r <= tokens@.len(),
        final(st).wf(),
        tab_vals_ok(final(st)@),
        forall|k: int| 0 <= k < final(diags)@.len() ==> (#[trigger] final(diags)@[k]).wf(),
        run_model(tokens_view(tokens@), i as int, adr, old(st)@, wv, diags_view(old(diags)@))
            == run_model(
            tokens_view(tokens@),
            r as int,
            adr,
            final(st)@,
            wv,
            diags_view(final(diags)@),
        ),
{
    let ghost tv = tokens_view(tokens@);
    let n_toks = tokens.len();
    let ghost i0 = i as int;
    let ghost tab0 = st@;
    let ghost dv0 = diags_view(diags@);
    let ghost idv = id@;
    match st.declare(&id, val, span) {
        Ok(_) => {
            proof {
                assert(st@ =~= tab0.push((idv, ColType { val, span, visited: false })));
                assert(tab_vals_ok(st@));
                lemma_step_const_decl(tv, i0, adr, tab0, wv, dv0, idv, span, val);
                assert(case_declare(idv, span, val, tab0, dv0) == (
                    tab0.push((idv, ColType { val, span, visited: false })),
                    dv0,
                ));
            }
        },
        Err(prev_span) => {
            diags.push(
                diag2(
                    DiagKind::DuplicateDeclaration,
                    String::from_str("Identifier already declared"),
                    prev_span,
                    "previously declared here",
                    span,
                    "declared there",
                    None,
                ),
            );
            proof {
                assert(diags_view(diags@) =~= dv0.push(
                    (DiagKind::DuplicateDeclaration, seq![prev_span, span]),
                ));
                lemma_step_const_decl(tv, i0, adr, tab0, wv, dv0, idv, span, val);
                assert(case_declare(idv, span, val, tab0, dv0) == (
                    tab0,
                    dv0.push((DiagKind::DuplicateDeclaration, seq![prev_span, span])),
                ));
            }
        },
    }
    i + 3
}

/// Reports a token the lexer rejected.
fn do_err(
    tokens: &Vec<(Result<Token, ()>, Span)>,
    i: usize,
    diags: &mut Vec<Diagnostic>,
    Ghost(adr): Ghost<u16>,
    Ghost(tab): Ghost<Seq<(Seq<char>, ColType)>>,
    Ghost(wv): Ghost<Seq<WordV>>,
    sp: Span,
) -> (r: usize)
    requires
        i < tokens@.len(),
        w_err(wtok(tokens_view(tokens@), i as int)) == Some(sp),
        forall|k: int| 0 <= k < old(diags)@.len() ==> (#[trigger] old(diags)@[k]).wf(),
    ensures
        i < r <= tokens@.len(),
        forall|k: int| 0 <= k < final(diags)@.len() ==> (#[trigger] final(diags)@[k]).wf(),
        run_model(tokens_view(tokens@), i as int, adr, tab, wv, diags_view(old(diags)@))
            == run_model(tokens_view(tokens@), r as int, adr, tab, wv, diags_view(final(diags)@)),
{
    let ghost tv = tokens_view(tokens@);
    let n_toks = tokens.len();
    let ghost i0 = i as int;
    let ghost dv0 = diags_view(diags@);
    diags.push(
        diag1(
            DiagKind::UnrecognizedToken,
            String::from_str("Unrecognized token"),
            sp,
            "This doesn't match any token",
            None,
        ),
    );
    proof {
        assert(diags_view(diags@) =~= dv0.push((DiagKind::UnrecognizedToken, seq![sp])));
        lemma_step_err(tv, i0, adr, tab, wv, dv0, sp);
    }
    i + 1
}

/// Reports a window that no instruction form matches.
fn do_shape(
    tokens: &Vec<(Result<Token, ()>, Span)>,
    i: usize,
    diags: &mut Vec<Diagnostic>,
    Ghost(adr): Ghost<u16>,
    Ghost(tab): Ghost<Seq<(Seq<char>, ColType)>>,
    Ghost(wv): Ghost<Seq<WordV>>,
) -> (r: usize)
    requires
        i < tokens@.len(),
        ({
            let tv = tokens_view(tokens@);
            let j = i as int;
            &&& !(w_reg(wtok(tv, j)) is Some && w_assign(wtok(tv, j + 1)) && w_reg(wtok(tv, j + 2))
                is Some && w_op(wtok(tv, j + 3)) is Some && w_reg(wtok(tv, j + 4)) is Some)
            &&& !(w_reg(wtok(tv, j)) is Some && w_assign(wtok(tv, j + 1)) && w_ident(
                wtok(tv, j + 2),
            ) is Some)
            &&& !(w_reg(wtok(tv, j)) is Some && w_assign(wtok(tv, j + 1)) && w_value(
                wtok(tv, j + 2),
            ) is Some)
            &&& !(w_reg(wtok(tv, j)) is Some && w_assign(wtok(tv, j + 1)) && w_reg(
                wtok(tv, j + 2),
            ) is Some)
            &&& !(w_reg(wtok(tv, j)) is Some && w_assign(wtok(tv, j + 1)) && w_op(wtok(tv, j + 2))
                is Some && w_reg(wtok(tv, j + 3)) is Some)
            &&& !(w_reg(wtok(tv, j)) is Some && w_cond(wtok(tv, j + 1)) is Some)
            &&& !(w_cond(wtok(tv, j)) is Some && (w_cond(wtok(tv, j))->0).0 == Cond::Jump)
            &&& !(w_ident(wtok(tv, j)) is Some && w_label_dir(wtok(tv, j + 1)))
            &&& !(w_define_dir(wtok(tv, j)) && w_ident(wtok(tv, j + 1)) is Some && w_value(
                wtok(tv, j + 2),
            ) is Some)
            &&& !w_comment(wtok(tv, j))
            &&& w_err(wtok(tv, j)) is None
        }),
        forall|k: int| 0 <= k < old(diags)@.len() ==> (#[trigger] old(diags)@[k]).wf(),
    ensures
        i < r <= tokens@.len(),
        forall|k: int| 0 <= k < final(diags)@.len() ==> (#[trigger] final(diags)@[k]).wf(),
        run_model(tokens_view(tokens@), i as int, adr, tab, wv, diags_view(old(diags)@))
            == run_model(tokens_view(tokens@), r as int, adr, tab, wv, diags_view(final(diags)@)),
{
    let ghost tv = tokens_view(tokens@);
    let n_toks = tokens.len();
    let ghost i0 = i as int;
    let ghost dv0 = diags_view(diags@);
    let sp = span_at(tokens, i, 0);
    diags.push(
        diag1(
            DiagKind::UnrecognizedShape,
            String::from_str("Unrecognized instruction shape"),
            sp,
            "no instruction form matches here",
            None,
        ),
    );
    proof {
        assert(diags_view(diags@) =~= dv0.push((DiagKind::UnrecognizedShape, seq![sp])));
        assert(sp == wtok(tv, i0).1);
        lemma_step_shape(tv, i0, adr, tab, wv, dv0);
    }
    i + 1
}

/// Generates the bit stream and diagnostics from a spanned token stream:
/// one forward pass recognizing instruction forms and building the symbol
/// table, a resolution pass replacing deferred references, and finally one
/// warning per declared-but-never-used symbol. The stream must be
/// well-formed: value tokens fit the loadable range, as the tokenizer
/// guarantees.
#[verifier::rlimit(100)]
pub fn parse(tokens: &Vec<(Result<Token, ()>, Span)>, sep: &str) -> (r: ParserReport)
    requires
        wf_tokens(tokens_view(tokens@)),
    ensures
        ({
            let pm = parse_model(tokens_view(tokens@));
            &&& r.bit_stream@ == join_chars(pm.0, sep@)
            &&& r.id_collect@ == pm.1
            &&& diags_view(r.report@) == pm.2
            &&& forall|k: int| 0 <= k < r.report@.len() ==> (#[trigger] r.report@[k]).wf()
            &&& r.id_collect.wf()
        }),
{
    let ghost tv = tokens_view(tokens@);
    let n = tokens.len();
    let mut st = SymbolTable::new();
    let mut words: Vec<WordEntry> = Vec::new();
    let mut diags: Vec<Diagnostic> = Vec::new();
    let mut adr: u16 = 0;
    let mut i: usize = 0;
    proof {
        assert(words_view(words@) =~= Seq::<WordV>::empty());
        assert(diags_view(diags@) =~= Seq::<(DiagKind, Seq<Span>)>::empty());
    }
    while i < n
        invariant
            n == tokens@.len(),
            tv == tokens_view(tokens@),
            tv.len() == n,
            wf_tokens(tv),
            0 <= i <= n,
            adr <= MAX_LOAD_VALUE,
            st.wf(),
            tab_vals_ok(st@),
            forall|k: int| 0 <= k < diags@.len() ==> (#[trigger] diags@[k]).wf(),
            run_model(tv, 0, 0, Seq::empty(), Seq::empty(), Seq::empty()) == run_model(
                tv,
                i as int,
                adr,
                st@,
                words_view(words@),
                diags_view(diags@),
            ),
        decreases n - i,
    {
        let ghost i0 = i as int;
        let p0_reg = probe_reg(tokens, i, 0);
        let p1_assign = probe_assign(tokens, i, 1);
        let p2_reg = probe_reg(tokens, i, 2);
        let p3_op = probe_op(tokens, i, 3);
        let p4_reg = probe_reg(tokens, i, 4);
        let p2_ident = probe_ident(tokens, i, 2);
        let p2_val = probe_value(tokens, i, 2);
        let p2_op = probe_op(tokens, i, 2);
        let p3_reg = probe_reg(tokens, i, 3);
        let p1_cond = probe_cond(tokens, i, 1);
        let p0_cond = probe_cond(tokens, i, 0);
        let p0_ident = probe_ident(tokens, i, 0);
        let p1_label = probe_label_dir(tokens, i, 1);
        let p0_define = probe_define_dir(tokens, i, 0);
        let p1_ident = probe_ident(tokens, i, 1);
        let p0_comment = probe_comment(tokens, i, 0);
        let p0_err = probe_err(tokens, i, 0);
        if p0_reg.is_some() && p1_assign && p2_reg.is_some() && p3_op.is_some()
            && p4_reg.is_some() {
            let (regc, spanc) = p0_reg.unwrap();
            let (rega, spana) = p2_reg.unwrap();
            let (op, spanop) = p3_op.unwrap();
            let (regb, spanb) = p4_reg.unwrap();
            let step = do_binary(
                tokens, i, adr, &mut words, &mut diags, Ghost(st@), regc, spanc, rega, spana, op,
                spanop, regb, spanb,
            );
            i = step.0;
            adr = step.1;
        } else if p0_reg.is_some() && p1_assign && p2_ident.is_some() {
            let (regc, spanc) = p0_reg.unwrap();
            let (id, spanid) = p2_ident.unwrap();
            let step = do_imm_symbol(
                tokens, i, adr, &mut words, &mut diags, Ghost(st@), regc, spanc, id, spanid,
            );
            i = step.0;
            adr = step.1;
        } else if p0_reg.is_some() && p1_assign && p2_val.is_some() {
            let (regc, spanc) = p0_reg.unwrap();
            let (val, _spanval) = p2_val.unwrap();
            proof {
                if i0 + 2 >= tv.len() {
                    assert(w_value(wtok(tv, i0 + 2)) is None);
                }
                assert(tv[i0 + 2].0 matches Ok(TokenV::Value(v)) && v == val);
            }
            let step = do_imm_literal(
                tokens, i, adr, &mut words, &mut diags, Ghost(st@), regc, spanc, val,
            );
            i = step.0;
            adr = step.1;
        } else if p0_reg.is_some() && p1_assign && p2_reg.is_some() {
            let (regc, spanc) = p0_reg.unwrap();
            let (rega, spana) = p2_reg.unwrap();
            let step = do_transfer(
                tokens, i, adr, &mut words, &mut diags, Ghost(st@), regc, spanc, rega, spana,
            );
            i = step.0;
            adr = step.1;
        } else if p0_reg.is_some() && p1_assign && p2_op.is_some() && p3_reg.is_some() {
            let (regc, spanc) = p0_reg.unwrap();
            let (op, spanop) = p2_op.unwrap();
            let (rega, spana) = p3_reg.unwrap();
            let step = do_unary(
                tokens, i, adr, &mut words, &mut diags, Ghost(st@), regc, spanc, op, spanop, rega,
                spana,
            );
            i = step.0;
            adr = step.1;
        } else if p0_reg.is_some() && p1_cond.is_some() {
            let (rega, _spana) = p0_reg.unwrap();
            let (cond, _spancond) = p1_cond.unwrap();
            let step = do_condition(
                tokens, i, adr, &mut words, Ghost(st@), Ghost(diags_view(diags@)), rega, cond,
            );
            i = step.0;
            adr = step.1;
        } else if p0_cond.is_some() && p0_cond.unwrap().0 == Cond::Jump {
            let step = do_jump(tokens, i, adr, &mut words, Ghost(st@), Ghost(diags_view(diags@)));
            i = step.0;
            adr = step.1;
        } else if p0_ident.is_some() && p1_label {
            let (id, span) = p0_ident.unwrap();
            i = do_label_decl(
                tokens, i, adr, &mut st, &mut diags, Ghost(words_view(words@)), id, span,
            );
        } else if p0_define && p1_ident.is_some() && p2_val.is_some() {
            let (id, span) = p1_ident.unwrap();
            let (val, _spanval) = p2_val.unwrap();
            proof {
                if i0 + 2 >= tv.len() {
                    assert(w_value(wtok(tv, i0 + 2)) is None);
                }
                assert(tv[i0 + 2].0 matches Ok(TokenV::Value(v)) && v == val);
            }
            i = do_const_decl(
                tokens, i, adr, &mut st, &mut diags, Ghost(words_view(words@)), id, span, val,
            );
        } else if p0_comment {
            proof {
                lemma_step_comment(tv, i0, adr, st@, words_view(words@), diags_view(diags@));
            }
            i += 1;
        } else if p0_err.is_some() {
            let sp = p0_err.unwrap();
            i = do_err(
                tokens, i, &mut diags, Ghost(adr), Ghost(st@), Ghost(words_view(words@)), sp,
            );
        } else {
            i = do_shape(tokens, i, &mut diags, Ghost(adr), Ghost(st@), Ghost(words_view(words@)));
        }
    }
    let ghost m = run_model(tv, 0, 0, Seq::empty(), Seq::empty(), Seq::empty());
    proof {
        assert(m == (words_view(words@), st@, diags_view(diags@)));
    }
    // Resolution pass: replace each placeholder by the immediate word of its
    // symbol, or by the invalid marker and an error.
    let mut outs: Vec<String> = Vec::new();
    let nw = words.len();
    let mut k: usize = 0;
    proof {
        assert(strs_view(outs@) =~= Seq::<Seq<char>>::empty());
    }
    while k < nw
        invariant
            nw == words@.len(),
            0 <= k <= nw,
            m == run_model(tv, 0, 0, Seq::empty(), Seq::empty(), Seq::empty()),
            m.0 == words_view(words@),
            st.wf(),
            tab_vals_ok(st@),
            forall|j: int| 0 <= j < diags@.len() ==> (#[trigger] diags@[j]).wf(),
            resolve_model(m.0, 0, m.1, Seq::empty(), m.2) == resolve_model(
                m.0,
                k as int,
                st@,
                strs_view(outs@),
                diags_view(diags@),
            ),
        decreases nw - k,
    {
        let ghost k0 = k as int;
        let ghost tabr = st@;
        let ghost ov0 = strs_view(outs@);
        let ghost dv0 = diags_view(diags@);
        match &words[k] {
            WordEntry::Encoded(w) => {
                let ghost wchars = w@;
                outs.push(w.clone());
                proof {
                    assert(strs_view(outs@) =~= ov0.push(wchars));
                    assert(m.0[k0] == WordV::Encoded(wchars));
                    assert(resolve_model(m.0, k0, tabr, ov0, dv0) == resolve_model(
                        m.0,
                        k0 + 1,
                        tabr,
                        ov0.push(wchars),
                        dv0,
                    ));
                }
            },
            WordEntry::Placeholder(name, span) => {
                let ghost namev = name@;
                let ghost spanv = *span;
                proof {
                    assert(m.0[k0] == WordV::Placeholder(namev, spanv));
                }
                match st.resolve(name) {
                    Some(val) => {
                        proof {
                            lemma_tab_find(tabr, namev);
                            assert(val == tab_get(tabr, namev).val);
                            assert(val <= MAX_LOAD_VALUE);
                            crate::symtab::lemma_tab_mark_props(tabr, namev);
                        }
                        outs.push(data_mode_format(val));
                        proof {
                            assert(strs_view(outs@) =~= ov0.push(data_word_chars(val)));
                            assert(resolve_model(m.0, k0, tabr, ov0, dv0) == resolve_model(
                                m.0,
                                k0 + 1,
                                tab_mark(tabr, namev),
                                ov0.push(data_word_chars(tab_get(tabr, namev).val)),
                                dv0,
                            ));
                        }
                    },
                    None => {
                        proof {
                            reveal_strlit("E");
                        }
                        let marker = String::from_str("E");
                        proof {
                            assert(marker@ =~= seq!['E']);
                        }
                        outs.push(marker);
                        diags.push(
                            diag1(
                                DiagKind::UnresolvedIdentifier,
                                String::from_str("Unrecognized identifier"),
                                *span,
                                "unknown id",
                                None,
                            ),
                        );
                        proof {
                            assert(strs_view(outs@) =~= ov0.push(seq!['E']));
                            assert(diags_view(diags@) =~= dv0.push(
                                (DiagKind::UnresolvedIdentifier, seq![spanv]),
                            ));
                            assert(resolve_model(m.0, k0, tabr, ov0, dv0) == resolve_model(
                                m.0,
                                k0 + 1,
                                tabr,
                                ov0.push(seq!['E']),
                                dv0.push((DiagKind::UnresolvedIdentifier, seq![spanv])),
                            ));
                        }
                    },
                }
            },
        }
        k += 1;
    }
    let ghost res = resolve_model(m.0, 0, m.1, Seq::empty(), m.2);
    proof {
        assert(res == (strs_view(outs@), st@, diags_view(diags@)));
    }
    // Warnings: one per symbol declared but never used.
    let unused = st.unused_symbols();
    let ghost base_dv = diags_view(diags@);
    let nu = unused.len();
    let mut j: usize = 0;
    proof {
        assert(unused@.map(|x: int, e: (String, Span)| (e.0@, e.1)) == unused_list(st@));
        assert(unused@.len() == unused_list(st@).len());
    }
    while j < nu
        invariant
            nu == unused@.len(),
            0 <= j <= nu,
            unused@.map(|x: int, e: (String, Span)| (e.0@, e.1)) == unused_list(res.1),
            nu == unused_list(res.1).len(),
            res == resolve_model(m.0, 0, m.1, Seq::empty(), m.2),
            forall|x: int| 0 <= x < diags@.len() ==> (#[trigger] diags@[x]).wf(),
            diags_view(diags@) =~= res.2 + unused_diags(res.1).take(j as int),
        decreases nu - j,
    {
        let ghost dv0 = diags_view(diags@);
        let e = &unused[j];
        let mut msg = e.0.clone();
        msg.append(" declared but never used");
        let sp = e.1;
        diags.push(diag1(DiagKind::UnusedDeclaration, msg, sp, "Here", None));
        proof {
            assert(unused@.map(|x: int, e2: (String, Span)| (e2.0@, e2.1))[j as int]
                == unused_list(res.1)[j as int]);
            assert(sp == unused_list(res.1)[j as int].1);
            assert(unused_diags(res.1)[j as int] == (DiagKind::UnusedDeclaration, seq![sp]));
            assert(diags_view(diags@) =~= dv0.push((DiagKind::UnusedDeclaration, seq![sp])));
            assert(unused_diags(res.1).take(j + 1) =~= unused_diags(res.1).take(j as int).push(
                unused_diags(res.1)[j as int],
            ));
            assert(diags_view(diags@) =~= res.2 + unused_diags(res.1).take(j + 1));
        }
        j += 1;
    }
    proof {
        assert(unused_diags(res.1).take(nu as int) =~= unused_diags(res.1));
        assert(diags_view(diags@) =~= res.2 + unused_diags(res.1));
    }
    let bit_stream = join_words(&outs, sep);
    ParserReport { bit_stream, report: diags, id_collect: st }
}


/// Assembles source text end to end: the tokenizer feeds the encoder's
/// forward pass, the resolution pass replaces deferred references, and the
/// result is the joined bit stream with every collected diagnostic.
pub fn assemble(src: &str, sep: &str) -> (r: ParserReport)
    ensures
        ({
            let pm = parse_model(lex_model(src@, 0));
            &&& r.bit_stream@ == join_chars(pm.0, sep@)
            &&& r.id_collect@ == pm.1
            &&& diags_view(r.report@) == pm.2
            &&& forall|k: int| 0 <= k < r.report@.len() ==> (#[trigger] r.report@[k]).wf()
        }),
{
    proof {
        lemma_lex_model_wf(src@);
    }
    let tokens = crate::lexer::tokenize(src);
    parse(&tokens, sep)
}

} // verus!
