use asm16::arch::{data_mode_format, inst_mode_format, Cond, Op, OpOrCond, Reg};
use asm16::define::{parse_define, ParseDefineError};
use asm16::diag::{DiagKind, Severity, Span};
use asm16::lexer::tokenize;
use asm16::numeric::ParseValueError;
use asm16::parser::parse;

#[test]
fn duplicate_declaration_reported_for_every_kind_order() {
    let sources = [
        "test:\ntest:",
        "test:\nDEFINE test 0",
        "DEFINE test 0\ntest:",
        "DEFINE test 0\nDEFINE test 0",
    ];
    for src in sources {
        let tokens = tokenize(src);
        let report = parse(&tokens, "");
        let dups: Vec<_> = report
            .report
            .iter()
            .filter(|d| d.kind == DiagKind::DuplicateDeclaration)
            .collect();
        assert_eq!(dups.len(), 1);
        assert_eq!(dups[0].severity, Severity::Error);
        // both the original and the new declaration spans are labeled
        assert_eq!(dups[0].labels.len(), 2);
    }
}

#[test]
fn hazard_is_a_register_hazard_error() {
    let tokens = tokenize("A = *A");
    let report = parse(&tokens, "");
    assert_eq!(report.report.len(), 1);
    assert_eq!(report.report[0].kind, DiagKind::RegisterHazard);
    assert_eq!(report.report[0].severity, Severity::Error);

    let tokens = tokenize("V = *V");
    let report = parse(&tokens, "");
    assert_eq!(report.report.len(), 1);
    assert_eq!(report.report[0].kind, DiagKind::RegisterHazard);
}

#[test]
fn unused_constant_yields_exactly_one_warning() {
    let src = "DEFINE unused 5\nJMP";
    let tokens = tokenize(src);
    let report = parse(&tokens, "\n");
    // the unused declaration does not affect the emitted bit stream
    assert_eq!(report.bit_stream, "0111000000000000");
    assert_eq!(report.report.len(), 1);
    assert_eq!(report.report[0].kind, DiagKind::UnusedDeclaration);
    assert_eq!(report.report[0].severity, Severity::Warning);
    // the warning labels the declaration span of `unused`
    assert_eq!(report.report[0].labels.len(), 1);
    assert_eq!(report.report[0].labels[0].0, Span { start: 7, end: 13 });
}

#[test]
fn forward_reference_resolves_to_emitted_word_count() {
    let src = "A = later\nJMP\nlater:";
    let tokens = tokenize(src);
    let report = parse(&tokens, "\n");
    assert!(report.report.is_empty());
    // `later` stands after two emitted words, hence address 32
    assert_eq!(report.bit_stream, "1000000000100000\n0111000000000000");
}

#[test]
fn backward_reference_resolves_too() {
    let src = "start:\nJMP\nA = start";
    let tokens = tokenize(src);
    let report = parse(&tokens, "\n");
    assert!(report.report.is_empty());
    assert_eq!(report.bit_stream, "0111000000000000\n1000000000000000");
}

#[test]
fn unresolved_identifier_leaves_a_visible_marker() {
    let src = "A = nowhere";
    let tokens = tokenize(src);
    let report = parse(&tokens, "\n");
    assert_eq!(report.bit_stream, "E");
    assert_eq!(report.report.len(), 1);
    assert_eq!(report.report[0].kind, DiagKind::UnresolvedIdentifier);
}

#[test]
fn rejected_token_is_reported_not_dropped() {
    let tokens = tokenize("B = 0");
    let report = parse(&tokens, "");
    assert!(report
        .report
        .iter()
        .any(|d| d.kind == DiagKind::UnrecognizedToken));
}

#[test]
fn unrecognized_shape_is_reported() {
    let tokens = tokenize("=");
    let report = parse(&tokens, "");
    assert_eq!(report.report.len(), 1);
    assert_eq!(report.report[0].kind, DiagKind::UnrecognizedShape);
}

#[test]
fn comments_emit_nothing() {
    let src = "; leading comment\nJMP ; trailing comment";
    let tokens = tokenize(src);
    let report = parse(&tokens, "\n");
    assert!(report.report.is_empty());
    assert_eq!(report.bit_stream, "0111000000000000");
}

#[test]
fn empty_source_assembles_to_nothing() {
    let tokens = tokenize("");
    let report = parse(&tokens, "\n");
    assert!(report.report.is_empty());
    assert_eq!(report.bit_stream, "");
}

#[test]
fn errors_are_collected_not_fail_fast() {
    let src = "D = 0\nA = *A\nJMP";
    let tokens = tokenize(src);
    let report = parse(&tokens, "");
    // both problems surface in one run
    assert_eq!(report.report.len(), 2);
    assert_eq!(report.report[0].kind, DiagKind::InvalidImmediateDestination);
    assert_eq!(report.report[1].kind, DiagKind::RegisterHazard);
}

#[test]
fn data_mode_format_encodes_immediates() {
    assert_eq!(data_mode_format(0), "1000000000000000");
    assert_eq!(data_mode_format(42), "1000000000101010");
    assert_eq!(data_mode_format(32767), "1111111111111111");
}

#[test]
fn inst_mode_format_encodes_operations() {
    assert_eq!(
        inst_mode_format(OpOrCond::Operation(Op::Or), Reg::A, Reg::Zero, Reg::D),
        "0011000000110100"
    );
    assert_eq!(
        inst_mode_format(OpOrCond::Condition(Cond::Jump), Reg::A, Reg::A, Reg::A),
        "0111000000000000"
    );
}

#[test]
fn bit_stream_codes_are_fixed() {
    assert_eq!(Op::Add.bit_stream(), "000");
    assert_eq!(Op::Sub.bit_stream(), "001");
    assert_eq!(Op::And.bit_stream(), "010");
    assert_eq!(Op::Or.bit_stream(), "011");
    assert_eq!(Op::Xor.bit_stream(), "100");
    assert_eq!(Op::Not.bit_stream(), "101");
    assert_eq!(Cond::Gt.bit_stream(), "001");
    assert_eq!(Cond::Eq.bit_stream(), "010");
    assert_eq!(Cond::GtEq.bit_stream(), "011");
    assert_eq!(Cond::Lt.bit_stream(), "100");
    assert_eq!(Cond::Neq.bit_stream(), "101");
    assert_eq!(Cond::LtEq.bit_stream(), "110");
    assert_eq!(Cond::Jump.bit_stream(), "111");
    assert_eq!(Reg::A.bit_stream(), "000");
    assert_eq!(Reg::AStar.bit_stream(), "001");
    assert_eq!(Reg::V.bit_stream(), "010");
    assert_eq!(Reg::VStar.bit_stream(), "011");
    assert_eq!(Reg::D.bit_stream(), "100");
    assert_eq!(Reg::Zero.bit_stream(), "110");
    assert_eq!(Reg::One.bit_stream(), "111");
}

#[test]
fn define_clause_accepts_two_operands() {
    assert_eq!(parse_define("DEFINE test 0"), Ok((String::from("test"), 0)));
    assert_eq!(parse_define("DEFINE test 32767"), Ok((String::from("test"), 32767)));
    assert_eq!(parse_define("DEFINE test 0xff"), Ok((String::from("test"), 255)));
    assert_eq!(parse_define("DEFINE TOTO 0b11"), Ok((String::from("TOTO"), 3)));
    assert_eq!(
        parse_define("DEFINE titi_test 0b111111111111111"),
        Ok((String::from("titi_test"), 32767))
    );
}

#[test]
fn define_clause_operand_count_is_validated() {
    assert_eq!(parse_define("DEFINE"), Err(ParseDefineError::TooFewOperandError));
    assert_eq!(parse_define("DEFINE test"), Err(ParseDefineError::TooFewOperandError));
    assert_eq!(parse_define("DEFINE test 1 2"), Err(ParseDefineError::TooManyOperandError));
}

#[test]
fn define_clause_validates_name_and_value() {
    assert_eq!(parse_define("DEFINE t/est 0x0"), Err(ParseDefineError::InvalidName));
    assert_eq!(
        parse_define("DEFINE test 0feaj138"),
        Err(ParseDefineError::ValueError(ParseValueError::WrongDigitError))
    );
    assert_eq!(
        parse_define("DEFINE test 0x8000"),
        Err(ParseDefineError::ValueError(ParseValueError::OverflowError))
    );
    // a too-large literal with valid digits overflows, it is not an invalid digit
    assert_eq!(
        parse_define("DEFINE test 99999"),
        Err(ParseDefineError::ValueError(ParseValueError::OverflowError))
    );
}

#[test]
fn realistic_program_assembles() {
    let src = "DEFINE ten 10\nA = ten\nD = A\nloop:\nD = D - O\nD ==\nA = end\nJMP\nA = loop\nJMP\nend:";
    let tokens = tokenize(src);
    let report = parse(&tokens, "\n");
    assert!(report.report.is_empty());
    let expected = [
        "1000000000001010", // A = ten, a constant of value 10
        "0011000000110100", // D = A
        "0001000100111100", // D = D - O
        "0010000100110110", // D ==
        "1000000010000000", // A = end, the label at address 128
        "0111000000000000", // JMP
        "1000000000100000", // A = loop, the label at address 32
        "0111000000000000", // JMP
    ]
    .join("\n");
    assert_eq!(report.bit_stream, expected);
}

#[test]
fn assemble_runs_the_whole_pipeline() {
    let report = asm16::parser::assemble("DEFINE mask 42\nA = mask", "\n");
    assert!(report.report.is_empty());
    assert_eq!(report.bit_stream, "1000000000101010");
}
