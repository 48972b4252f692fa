use lexer::{Lexer, Operator, Token};

fn lex(text: &str) -> Lexer {
    Lexer::new(text.to_string()).expect("tokenization failed")
}

fn number_value(t: Token) -> f64 {
    match t {
        Token::Number(s) => s.parse::<f64>().expect("malformed numeric lexeme"),
        other => panic!("expected a number, got {:?}", other),
    }
}

#[test]
fn single_number_then_end() {
    let mut lx = lex("3.25");
    assert_eq!(number_value(lx.next_token()), 3.25);
    assert_eq!(lx.next_token(), Token::EndOfStream);
    assert_eq!(lx.peek(), Token::EndOfStream);

    let mut lx = lex("42");
    assert_eq!(lx.next_token(), Token::Number("42".to_string()));
    assert_eq!(lx.next_token(), Token::EndOfStream);

    let mut lx = lex(".5");
    assert_eq!(number_value(lx.next_token()), 0.5);
    assert_eq!(lx.next_token(), Token::EndOfStream);

    let mut lx = lex("7.");
    assert_eq!(number_value(lx.next_token()), 7.0);
    assert_eq!(lx.next_token(), Token::EndOfStream);
}

#[test]
fn add_two_numbers() {
    let mut lx = lex("1+2");
    assert_eq!(number_value(lx.next_token()), 1.0);
    assert_eq!(lx.next_token(), Token::Operator(Operator::Add));
    assert_eq!(number_value(lx.next_token()), 2.0);
    for _ in 0..4 {
        assert_eq!(lx.peek(), Token::EndOfStream);
        assert_eq!(lx.next_token(), Token::EndOfStream);
    }
}

#[test]
fn boolean_and() {
    let mut lx = lex("true&&false");
    assert_eq!(lx.next_token(), Token::Boolean(true));
    assert_eq!(lx.next_token(), Token::Operator(Operator::And));
    assert_eq!(lx.next_token(), Token::Boolean(false));
    assert_eq!(lx.next_token(), Token::EndOfStream);
}

#[test]
fn not_equal_identifiers() {
    let mut lx = lex("a!=b");
    assert_eq!(lx.next_token(), Token::Identifier("a".to_string()));
    assert_eq!(lx.next_token(), Token::Operator(Operator::NotEqual));
    assert_eq!(lx.next_token(), Token::Identifier("b".to_string()));
    assert_eq!(lx.next_token(), Token::EndOfStream);
}

#[test]
fn bare_equals_dropped() {
    let mut lx = lex("x=y");
    assert_eq!(lx.next_token(), Token::Identifier("x".to_string()));
    assert_eq!(lx.next_token(), Token::Identifier("y".to_string()));
    assert_eq!(lx.next_token(), Token::EndOfStream);
}

#[test]
fn keyword_fires_late() {
    let mut lx = lex("truee");
    assert_eq!(lx.next_token(), Token::Boolean(true));
    assert_eq!(lx.next_token(), Token::Identifier("e".to_string()));
    assert_eq!(lx.next_token(), Token::EndOfStream);
}

#[test]
fn peek_does_not_advance() {
    let mut lx = lex("1+2");
    let first = lx.peek();
    assert_eq!(lx.peek(), first);
    assert_eq!(lx.peek(), first);
    assert_eq!(lx.next_token(), first);
    let second = lx.peek();
    assert_ne!(second, first);
    assert_eq!(lx.peek(), second);
    assert_eq!(lx.next_token(), second);
    assert_eq!(number_value(lx.next_token()), 2.0);
}

#[test]
fn exhausted_forever() {
    let mut lx = lex("x");
    assert_eq!(lx.next_token(), Token::Identifier("x".to_string()));
    for _ in 0..8 {
        assert_eq!(lx.peek(), Token::EndOfStream);
        assert_eq!(lx.next_token(), Token::EndOfStream);
    }
}

#[test]
fn malformed_number_fatal() {
    assert!(Lexer::new("1.2.3".to_string()).is_none());
    assert!(Lexer::new("1.2.3+4".to_string()).is_none());
    assert!(Lexer::new(".".to_string()).is_none());
    assert!(Lexer::new("1..2".to_string()).is_none());
    assert!(Lexer::new("a+1.2.3".to_string()).is_none());
}

#[test]
fn trailing_lexeme_emitted() {
    let mut lx = lex("42");
    assert_eq!(lx.next_token(), Token::Number("42".to_string()));
    assert_eq!(lx.next_token(), Token::EndOfStream);

    let mut lx = lex("abc");
    assert_eq!(lx.next_token(), Token::Identifier("abc".to_string()));
    assert_eq!(lx.next_token(), Token::EndOfStream);

    let mut lx = lex("true");
    assert_eq!(lx.next_token(), Token::Boolean(true));
    assert_eq!(lx.next_token(), Token::EndOfStream);
}

#[test]
fn empty_input() {
    let mut lx = lex("");
    assert_eq!(lx.peek(), Token::EndOfStream);
    assert_eq!(lx.next_token(), Token::EndOfStream);
}

#[test]
fn equals_operator() {
    let mut lx = lex("x==y");
    assert_eq!(lx.next_token(), Token::Identifier("x".to_string()));
    assert_eq!(lx.next_token(), Token::Operator(Operator::Equal));
    assert_eq!(lx.next_token(), Token::Identifier("y".to_string()));
    assert_eq!(lx.next_token(), Token::EndOfStream);
}

#[test]
fn punctuation() {
    let mut lx = lex("f(x,y)");
    assert_eq!(lx.next_token(), Token::Identifier("f".to_string()));
    assert_eq!(lx.next_token(), Token::LeftParen);
    assert_eq!(lx.next_token(), Token::Identifier("x".to_string()));
    assert_eq!(lx.next_token(), Token::Comma);
    assert_eq!(lx.next_token(), Token::Identifier("y".to_string()));
    assert_eq!(lx.next_token(), Token::RightParen);
    assert_eq!(lx.next_token(), Token::EndOfStream);
}

#[test]
fn arithmetic_operators() {
    let mut lx = lex("7-6*5/4%3^2");
    assert_eq!(number_value(lx.next_token()), 7.0);
    assert_eq!(lx.next_token(), Token::Operator(Operator::Sub));
    assert_eq!(number_value(lx.next_token()), 6.0);
    assert_eq!(lx.next_token(), Token::Operator(Operator::Mul));
    assert_eq!(number_value(lx.next_token()), 5.0);
    assert_eq!(lx.next_token(), Token::Operator(Operator::Div));
    assert_eq!(number_value(lx.next_token()), 4.0);
    assert_eq!(lx.next_token(), Token::Operator(Operator::Mod));
    assert_eq!(number_value(lx.next_token()), 3.0);
    assert_eq!(lx.next_token(), Token::Operator(Operator::Exp));
    assert_eq!(number_value(lx.next_token()), 2.0);
    assert_eq!(lx.next_token(), Token::EndOfStream);
}

#[test]
fn whitespace_and_noise_dropped() {
    let mut lx = lex("1 + 2");
    assert_eq!(number_value(lx.next_token()), 1.0);
    assert_eq!(lx.next_token(), Token::Operator(Operator::Add));
    assert_eq!(number_value(lx.next_token()), 2.0);
    assert_eq!(lx.next_token(), Token::EndOfStream);

    let mut lx = lex("@#?");
    assert_eq!(lx.next_token(), Token::EndOfStream);

    // a character beyond ASCII without the Alphabetic property is dropped,
    // flushing the numeric buffer like any other separator
    let mut lx = lex("1№2");
    assert_eq!(lx.next_token(), Token::Number("1".to_string()));
    assert_eq!(lx.next_token(), Token::Number("2".to_string()));
    assert_eq!(lx.next_token(), Token::EndOfStream);
}

#[test]
fn lone_operator_characters_dropped() {
    let mut lx = lex("!a");
    assert_eq!(lx.next_token(), Token::Identifier("a".to_string()));
    assert_eq!(lx.next_token(), Token::EndOfStream);

    let mut lx = lex("a&b");
    assert_eq!(lx.next_token(), Token::Identifier("a".to_string()));
    assert_eq!(lx.next_token(), Token::Identifier("b".to_string()));
    assert_eq!(lx.next_token(), Token::EndOfStream);
}

#[test]
fn double_operator_overlap() {
    // each character is matched with its own lookahead, so a run of four
    // equals signs holds three overlapping `==` pairs
    let mut lx = lex("====");
    assert_eq!(lx.next_token(), Token::Operator(Operator::Equal));
    assert_eq!(lx.next_token(), Token::Operator(Operator::Equal));
    assert_eq!(lx.next_token(), Token::Operator(Operator::Equal));
    assert_eq!(lx.next_token(), Token::EndOfStream);
}

#[test]
fn mixed_buffers() {
    // a digit inside an identifier goes to the numeric buffer, which is
    // flushed first
    let mut lx = lex("a1+");
    assert_eq!(lx.next_token(), Token::Number("1".to_string()));
    assert_eq!(lx.next_token(), Token::Identifier("a".to_string()));
    assert_eq!(lx.next_token(), Token::Operator(Operator::Add));
    assert_eq!(lx.next_token(), Token::EndOfStream);
}

#[test]
fn keyword_before_number() {
    let mut lx = lex("true1");
    assert_eq!(lx.next_token(), Token::Boolean(true));
    assert_eq!(lx.next_token(), Token::Number("1".to_string()));
    assert_eq!(lx.next_token(), Token::EndOfStream);
}

#[test]
fn identifier_beyond_ascii() {
    let mut lx = lex("π+1");
    assert_eq!(lx.next_token(), Token::Identifier("π".to_string()));
    assert_eq!(lx.next_token(), Token::Operator(Operator::Add));
    assert_eq!(number_value(lx.next_token()), 1.0);
    assert_eq!(lx.next_token(), Token::EndOfStream);
}
