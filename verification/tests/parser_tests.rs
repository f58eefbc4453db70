use asm16::diag::Span;
use asm16::lexer::tokenize;
use asm16::parser::parse;
use asm16::symtab::ColType;

#[test]
fn test_define() {
    let src = "DEFINE foo 0\nDEFINE bar 1\nDEFINE titi 42\nDEFINE tata 73";

    let tokens = tokenize(src);
    let report = parse(&tokens, "");

    assert_eq!(report.id_collect.len(), 4);
    assert_eq!(
        report.id_collect.get(&String::from("foo")),
        Some(ColType { val: 0, span: Span { start: 7, end: 10 }, visited: false })
    );
    assert_eq!(
        report.id_collect.get(&String::from("bar")),
        Some(ColType { val: 1, span: Span { start: 20, end: 23 }, visited: false })
    );
    assert_eq!(
        report.id_collect.get(&String::from("titi")),
        Some(ColType { val: 42, span: Span { start: 33, end: 37 }, visited: false })
    );
    assert_eq!(
        report.id_collect.get(&String::from("tata")),
        Some(ColType { val: 73, span: Span { start: 48, end: 52 }, visited: false })
    );
}

#[test]
fn test_label() {
    let src = "main:\nJMP\nlabel:\nJMP\nJMP\nJMP\nJMP\nJMP\nJMP\nJMP\nJMP\ntiti:";

    let tokens = tokenize(src);
    let report = parse(&tokens, "");

    assert_eq!(report.id_collect.len(), 3);
    assert_eq!(
        report.id_collect.get(&String::from("main")),
        Some(ColType { val: 0, span: Span { start: 0, end: 4 }, visited: false })
    );
    assert_eq!(
        report.id_collect.get(&String::from("label")),
        Some(ColType { val: 16, span: Span { start: 10, end: 15 }, visited: false })
    );
    assert_eq!(
        report.id_collect.get(&String::from("titi")),
        Some(ColType { val: 144, span: Span { start: 49, end: 53 }, visited: false })
    );
}

#[test]
fn test_load_value() {
    let src = "DEFINE mask 42\nA = 0\nA = 0x7fff\nA = mask";
    let expected = "1000000000000000\n1111111111111111\n1000000000101010";

    let tokens = tokenize(src);

    assert_eq!(expected, parse(&tokens, "\n").bit_stream);
}

#[test]
fn test_load_value_into_wrong_register() {
    let src = "D = 0";

    let tokens = tokenize(src);

    assert!(!parse(&tokens, "").report.is_empty());
}

#[test]
fn test_register_transfer() {
    let src = "D = A\nD = D\nD = *A\nA = D\n*A = D\n*A = A";

    let expected = "0011000000110100\n0011000100110100\n0011000001110100\n0011000100110000\n0011000100110001\n0011000000110001";

    let tokens = tokenize(src);

    assert_eq!(expected, parse(&tokens, "\n").bit_stream);
}

#[test]
fn test_wrong_register_transfer() {
    let src = "A = *A\nV = *V";

    let tokens = tokenize(src);

    assert!(!parse(&tokens, "").report.is_empty());
}

#[test]
fn parser_test_condition() {
    let src = "D==\nD>=\n*A>=";

    let expected = "0010000100110110\n0011000100110110\n0011000001110110";

    let tokens = tokenize(src);

    assert_eq!(expected, parse(&tokens, "\n").bit_stream);
}

#[test]
fn test_jump() {
    let src = "JMP";

    let expected = "0111000000000000";

    let tokens = tokenize(src);

    assert_eq!(expected, parse(&tokens, "\n").bit_stream);
}

#[test]
fn test_not() {
    let src = "A = ~D\nD = ~V";

    let expected = "0101000100000000\n0101000010000100";

    let tokens = tokenize(src);

    assert_eq!(expected, parse(&tokens, "\n").bit_stream);
}

#[test]
fn test_double_operand_operation() {
    let src = "A = A + D\nA = A & D\nD = *A | A";

    let expected = "0000000000100000\n0010000000100000\n0011000001000100";

    let tokens = tokenize(src);

    assert_eq!(expected, parse(&tokens, "\n").bit_stream);
}

#[test]
fn test_wrong_double_operand_operation() {
    let src = "A = A ~ D";

    let tokens = tokenize(src);

    assert!(!parse(&tokens, "").report.is_empty());
}

#[test]
fn test_incompatible_registers() {
    let src = "A = A + *A\nV = V + *V\nA = *A & D";

    let tokens = tokenize(src);

    assert!(!parse(&tokens, "").report.is_empty());
}
