use asm16::arch::{Cond, Op, Reg};
use asm16::lexer::{Dir, Token};

#[test]
fn test_operation() {
    let mut lex = Token::lexer("+~-&|^=");

    assert_eq!(lex.next(), Some(Ok(Token::Operation(Op::Add))));
    assert_eq!(lex.next(), Some(Ok(Token::Operation(Op::Not))));
    assert_eq!(lex.next(), Some(Ok(Token::Operation(Op::Sub))));
    assert_eq!(lex.next(), Some(Ok(Token::Operation(Op::And))));
    assert_eq!(lex.next(), Some(Ok(Token::Operation(Op::Or))));
    assert_eq!(lex.next(), Some(Ok(Token::Operation(Op::Xor))));
    assert_eq!(lex.next(), Some(Ok(Token::Operation(Op::Assignement))));

    let mut lex = Token::lexer(" +");
    assert_eq!(lex.next(), Some(Ok(Token::Operation(Op::Add))));

    let mut lex = Token::lexer("+ \n");
    assert_eq!(lex.next(), Some(Ok(Token::Operation(Op::Add))));

    let mut lex = Token::lexer("A+A\n");
    lex.next();
    assert_eq!(lex.next(), Some(Ok(Token::Operation(Op::Add))));

    let mut lex = Token::lexer("A +A\n");
    lex.next();
    assert_eq!(lex.next(), Some(Ok(Token::Operation(Op::Add))));
}

#[test]
fn test_register() {
    let mut lex = Token::lexer("A V D *A *V");
    assert_eq!(lex.next(), Some(Ok(Token::Register(Reg::A))));
    assert_eq!(lex.next(), Some(Ok(Token::Register(Reg::V))));
    assert_eq!(lex.next(), Some(Ok(Token::Register(Reg::D))));
    assert_eq!(lex.next(), Some(Ok(Token::Register(Reg::AStar))));
    assert_eq!(lex.next(), Some(Ok(Token::Register(Reg::VStar))));

    let mut lex = Token::lexer("A=");
    assert_eq!(lex.next(), Some(Ok(Token::Register(Reg::A))));

    let mut lex = Token::lexer("A\n");
    assert_eq!(lex.next(), Some(Ok(Token::Register(Reg::A))));

    // the wrong syntax below will be caught by the parser
    let mut lex = Token::lexer("A:");
    assert_eq!(lex.next(), Some(Ok(Token::Register(Reg::A))));

    // the wrong syntax below will be caught by the parser
    let mut lex = Token::lexer("DEFINE A");
    lex.next();
    assert_eq!(lex.next(), Some(Ok(Token::Register(Reg::A))));

    // the wrong syntax below will be caught by the parser
    let mut lex = Token::lexer("DEFINE *A");
    lex.next();
    assert_eq!(lex.next(), Some(Ok(Token::Register(Reg::AStar))));

    // Register B doesn't exist
    let mut lex = Token::lexer("B");
    assert_eq!(lex.next(), Some(Err(())));
}

#[test]
fn lexer_test_condition() {
    let mut lex = Token::lexer("== >= <= > < != JMP");
    assert_eq!(lex.next(), Some(Ok(Token::Condition(Cond::Eq))));
    assert_eq!(lex.next(), Some(Ok(Token::Condition(Cond::GtEq))));
    assert_eq!(lex.next(), Some(Ok(Token::Condition(Cond::LtEq))));
    assert_eq!(lex.next(), Some(Ok(Token::Condition(Cond::Gt))));
    assert_eq!(lex.next(), Some(Ok(Token::Condition(Cond::Lt))));
    assert_eq!(lex.next(), Some(Ok(Token::Condition(Cond::Neq))));
    assert_eq!(lex.next(), Some(Ok(Token::Condition(Cond::Jump))));

    let mut lex = Token::lexer("A==A\n");
    lex.next();
    assert_eq!(lex.next(), Some(Ok(Token::Condition(Cond::Eq))));

    let mut lex = Token::lexer("=A==A\n");
    lex.next();
    lex.next();
    assert_eq!(lex.next(), Some(Ok(Token::Condition(Cond::Eq))));
}

#[test]
fn test_directive() {
    let mut lex = Token::lexer("DEFINE label 0x0\ntest:");
    assert_eq!(lex.next(), Some(Ok(Token::Directive(Dir::Define))));
    lex.next();
    lex.next();
    lex.next();
    assert_eq!(lex.next(), Some(Ok(Token::Directive(Dir::Label))));

    let mut lex = Token::lexer("DEFINE:\n");
    assert_eq!(lex.next(), Some(Ok(Token::Directive(Dir::Define))));
    assert_eq!(lex.next(), Some(Ok(Token::Directive(Dir::Label))));
}

#[test]
fn lexer_test_values() {
    let mut lex = Token::lexer("0 1 32767 0x0 0x1 0x7fff 0b0 0b1 0b111111111111111\n");
    assert_eq!(lex.next(), Some(Ok(Token::Value(0))));
    assert_eq!(lex.next(), Some(Ok(Token::Value(1))));
    assert_eq!(lex.next(), Some(Ok(Token::Value(32767))));
    assert_eq!(lex.next(), Some(Ok(Token::Value(0))));
    assert_eq!(lex.next(), Some(Ok(Token::Value(1))));
    assert_eq!(lex.next(), Some(Ok(Token::Value(32767))));
    assert_eq!(lex.next(), Some(Ok(Token::Value(0))));
    assert_eq!(lex.next(), Some(Ok(Token::Value(1))));
    assert_eq!(lex.next(), Some(Ok(Token::Value(32767))));

    let mut lex = Token::lexer("32768 0x8000 0b1000000000000000");
    assert_eq!(lex.next(), Some(Err(())));
    assert_eq!(lex.next(), Some(Err(())));
    assert_eq!(lex.next(), Some(Err(())));
}

#[test]
fn test_identifier() {
    let mut lex = Token::lexer("DEFINE id 0x0\nid:");
    lex.next();
    assert_eq!(lex.next(), Some(Ok(Token::Identifier("id".to_string()))));
    lex.next();
    assert_eq!(lex.next(), Some(Ok(Token::Identifier("id".to_string()))));

    let test_string = "a b c foo bar FOO BAR foo_bar FOO_BAR Foo_Bar";
    let string_iter = test_string.split(" ");
    let mut lex = Token::lexer(test_string);

    for word in string_iter {
        assert_eq!(lex.next(), Some(Ok(Token::Identifier(word.to_string()))));
    }
}
