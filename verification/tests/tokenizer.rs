use dsasm::error::DSAsmError;
use dsasm::tokenizer::{classify, Start, Token, Tokenizer};

fn lex(source: &str) -> Result<Vec<Token>, DSAsmError> {
    Tokenizer::new(source.chars().collect()).tokenize()
}

#[test]
fn every_punctuator_reads_back() {
    let all = "<>+-.,:@?*/!~%=^|&(){};";
    let tokens = lex(all).unwrap();
    assert_eq!(
        tokens,
        vec![
            Token::LeftAngle,
            Token::RightAngle,
            Token::Plus,
            Token::Minus,
            Token::Dot,
            Token::Comma,
            Token::LabelDef,
            Token::Jmp,
            Token::Jze,
            Token::Star,
            Token::Slash,
            Token::Exclamation,
            Token::Tilde,
            Token::Percent,
            Token::Equals,
            Token::Caret,
            Token::Pipe,
            Token::Ampersand,
            Token::OpenParen,
            Token::CloseParen,
            Token::OpenCurly,
            Token::CloseCurly,
            Token::Semicolon,
        ]
    );
}

#[test]
fn keywords_and_names() {
    assert_eq!(
        lex("let if while for putchar return method getchar letter").unwrap(),
        vec![
            Token::Let,
            Token::If,
            Token::While,
            Token::For,
            Token::Putchar,
            Token::Return,
            Token::Method,
            Token::Getchar,
            Token::Identifier("letter".to_string()),
        ]
    );
}

#[test]
fn numbers() {
    assert_eq!(lex("0 7 255 007").unwrap(), vec![
        Token::Literal(0),
        Token::Literal(7),
        Token::Literal(255),
        Token::Literal(7),
    ]);
    assert_eq!(lex("0x1F 0xff 0x0a").unwrap(), vec![
        Token::Literal(31),
        Token::Literal(255),
        Token::Literal(10),
    ]);
    // `0x` without a digit is a zero and a name.
    assert_eq!(lex("0xg").unwrap(), vec![Token::Literal(0), Token::Identifier("xg".to_string())]);
}

#[test]
fn number_too_large_is_an_error() {
    for text in ["256", "1000", "0x100"] {
        match lex(text) {
            Err(DSAsmError::TokenizerError(m)) => {
                assert_eq!(m, "number too large to fit in target type")
            }
            other => panic!("unexpected {:?}", other),
        }
    }
}

#[test]
fn invalid_character_names_its_line() {
    match lex("let a\n= 1\n#") {
        Err(DSAsmError::TokenizerError(m)) => assert_eq!(m, "Invalid token #[2]"),
        other => panic!("unexpected {:?}", other),
    }
}

#[test]
fn blank_space_is_dropped() {
    assert_eq!(lex("  \t\n 1 \r\n+\n").unwrap(), vec![Token::Literal(1), Token::Plus]);
    assert_eq!(lex("").unwrap(), vec![]);
}

#[test]
fn second_reading_is_empty() {
    let mut tokenizer = Tokenizer::new("1 2".chars().collect());
    assert_eq!(tokenizer.tokenize().unwrap().len(), 2);
    assert_eq!(tokenizer.tokenize().unwrap(), vec![]);
}

#[test]
fn what_a_character_starts() {
    assert_eq!(classify('+', false, false), Start::Punctuation(Token::Plus));
    // Punctuation goes before everything, whatever the two answers are.
    assert_eq!(classify(';', true, true), Start::Punctuation(Token::Semicolon));
    assert_eq!(classify('\n', true, false), Start::Line);
    assert_eq!(classify(' ', true, false), Start::Blank);
    assert_eq!(classify('a', false, true), Start::Word);
    assert_eq!(classify('7', false, false), Start::Number);
    assert_eq!(classify('7', false, true), Start::Word);
    assert_eq!(classify('7', true, true), Start::Blank);
    assert_eq!(classify('#', false, false), Start::Nothing);
    assert_eq!(classify('a', false, false), Start::Nothing);
}

fn blank(c: char) -> bool {
    matches!(
        c,
        '\t'..='\r'
            | ' '
            | '\u{85}'
            | '\u{a0}'
            | '\u{1680}'
            | '\u{2000}'..='\u{200a}'
            | '\u{2028}'
            | '\u{2029}'
            | '\u{202f}'
            | '\u{205f}'
            | '\u{3000}'
    )
}

#[test]
fn blank_space_is_skipped_and_nothing_else_is() {
    for c in (0..=0x10ffff_u32).filter_map(char::from_u32) {
        let read = Tokenizer::new(vec![c, '+']).tokenize().ok();
        if blank(c) {
            assert_eq!(read, Some(vec![Token::Plus]), "after {:?}", c);
        } else {
            assert_ne!(read, Some(vec![Token::Plus]), "after {:?}", c);
        }
    }
}

#[test]
fn the_letters_of_ascii_start_words() {
    for c in (0..128_u32).filter_map(char::from_u32) {
        let read = Tokenizer::new(vec![c]).tokenize().ok();
        if c.is_ascii_alphabetic() {
            assert_eq!(read, Some(vec![Token::Identifier(c.to_string())]), "for {:?}", c);
        } else {
            assert_ne!(read, Some(vec![Token::Identifier(c.to_string())]), "for {:?}", c);
        }
    }
    for c in '0'..='9' {
        let read = Tokenizer::new(vec![c]).tokenize().unwrap();
        assert_eq!(read.len(), 1);
        assert!(!matches!(read[0], Token::Identifier(_)));
    }
}
