use asm16::tokenizer::Token;

#[test]
fn tokenizer_test_add_token() {
    let mut lex = Token::lexer("+ ADD");
    assert_eq!(lex.next(), Some(Ok(Token::Add)));
    assert_eq!(lex.next(), Some(Ok(Token::Add)));
}

#[test]
fn lexer_test_add_token() {
    let mut lex = Token::lexer("+ ADD");
    assert_eq!(lex.next(), Some(Ok(Token::Add)));
    assert_eq!(lex.next(), Some(Ok(Token::Add)));
}

#[test]
fn test_labels_token() {
    let mut lex = Token::lexer("some_label:");
    assert_eq!(lex.next(), Some(Ok(Token::Label(String::from("some_label")))));

    let mut lex = Token::lexer("SOME_LABEL:");
    assert_eq!(lex.next(), Some(Ok(Token::Label(String::from("SOME_LABEL")))));
}

#[test]
fn test_not_a_label() {
    let mut lex = Token::lexer("Centrale Lille");

    assert_eq!(lex.next(), Some(Err(())));
}

#[test]
fn tokenizer_test_values() {
    let inputs = ["554", "0x5fa4", "0b1000110"];
    let expected_numbers = [554, 0x5fa4, 0b1000110];

    for (l, r) in std::iter::zip(inputs, expected_numbers) {
        let mut lex = Token::lexer(l);

        assert_eq!(lex.next(), Some(Ok(Token::Number(r))))
    }
}

#[test]
fn test_values() {
    let inputs = ["554", "0x5fa4", "0b1000110"];
    let expected_numbers = [554, 0x5fa4, 0b1000110];

    for (l, r) in std::iter::zip(inputs, expected_numbers) {
        let mut lex = Token::lexer(l);

        assert_eq!(lex.next(), Some(Ok(Token::Number(r))))
    }
}

#[test]
fn tokenizer_keywords() {
    let mut lex = Token::lexer("SUB AND OR XOR NOT JMP A V C *A *V");
    assert_eq!(lex.next(), Some(Ok(Token::Sub)));
    assert_eq!(lex.next(), Some(Ok(Token::And)));
    assert_eq!(lex.next(), Some(Ok(Token::Or)));
    assert_eq!(lex.next(), Some(Ok(Token::Xor)));
    assert_eq!(lex.next(), Some(Ok(Token::Not)));
    assert_eq!(lex.next(), Some(Ok(Token::Jmp)));
    assert_eq!(lex.next(), Some(Ok(Token::A)));
    assert_eq!(lex.next(), Some(Ok(Token::V)));
    assert_eq!(lex.next(), Some(Ok(Token::C)));
    assert_eq!(lex.next(), Some(Ok(Token::StarA)));
    assert_eq!(lex.next(), Some(Ok(Token::StarV)));
    assert_eq!(lex.next(), None);
}

#[test]
fn tokenizer_operators() {
    let mut lex = Token::lexer("<- < <= > >= == != - & | ^ ~");
    assert_eq!(lex.next(), Some(Ok(Token::Assignment)));
    assert_eq!(lex.next(), Some(Ok(Token::Lt)));
    assert_eq!(lex.next(), Some(Ok(Token::Ltoeq)));
    assert_eq!(lex.next(), Some(Ok(Token::Gt)));
    assert_eq!(lex.next(), Some(Ok(Token::Gtoeq)));
    assert_eq!(lex.next(), Some(Ok(Token::Eq)));
    assert_eq!(lex.next(), Some(Ok(Token::Neq)));
    assert_eq!(lex.next(), Some(Ok(Token::Sub)));
    assert_eq!(lex.next(), Some(Ok(Token::And)));
    assert_eq!(lex.next(), Some(Ok(Token::Or)));
    assert_eq!(lex.next(), Some(Ok(Token::Xor)));
    assert_eq!(lex.next(), Some(Ok(Token::Not)));
    assert_eq!(lex.next(), None);
}

#[test]
fn tokenizer_rejects_single_equals() {
    let mut lex = Token::lexer("=");
    assert_eq!(lex.next(), Some(Err(())));
}

#[test]
fn tokenizer_uppercase_prefixes() {
    let mut lex = Token::lexer("0X5fa4 0B101");
    assert_eq!(lex.next(), Some(Ok(Token::Number(0x5fa4))));
    assert_eq!(lex.next(), Some(Ok(Token::Number(5))));
}

#[test]
fn tokenizer_overflow_is_an_error() {
    let mut lex = Token::lexer("32768");
    assert_eq!(lex.next(), Some(Err(())));
}
