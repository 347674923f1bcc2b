use dsasm::bytecode::{BytecodeConverter, Instruction};
use dsasm::error::DSAsmError;
use dsasm::tokenizer::Token;

fn assemble(tokens: Vec<Token>) -> Result<Vec<Instruction>, DSAsmError> {
    BytecodeConverter::new(tokens).convert()
}

fn name(text: &str) -> Token {
    Token::Identifier(text.to_string())
}

fn message(r: Result<Vec<Instruction>, DSAsmError>) -> String {
    match r {
        Err(DSAsmError::ConverterError(m)) => m,
        other => panic!("unexpected {:?}", other),
    }
}

#[test]
fn every_construct_gives_one_instruction() {
    let tokens = vec![
        Token::Caret,
        Token::Literal(4),
        Token::Plus,
        Token::Plus,
        Token::Plus,
        Token::Caret,
        Token::Literal(5),
        Token::Minus,
        Token::Minus,
        Token::Comma,
        Token::Dot,
        Token::LabelDef,
        name("a"),
        Token::Jmp,
        name("a"),
        Token::Jze,
        name("a"),
        Token::Jnze,
        name("a"),
        Token::Exclamation,
        Token::Star,
        Token::Literal(1),
        Token::Slash,
        Token::Literal(2),
        Token::Tilde,
        Token::OpenSquare,
        Token::Literal(3),
        Token::CloseSquare,
        Token::Minus,
        Token::RightAngle,
        Token::Literal(9),
        Token::Apostrophe,
        Token::Literal(6),
        Token::LeftAngle,
        Token::LeftAngle,
        Token::Literal(7),
        Token::RightAngle,
        Token::RightAngle,
        Token::Literal(8),
        Token::Pipe,
        Token::Literal(10),
    ];
    assert_eq!(
        assemble(tokens).unwrap(),
        vec![
            Instruction::MoveStack(4),
            Instruction::Increment(3),
            Instruction::MoveStack(5),
            Instruction::Decrement(2),
            Instruction::UserInput,
            Instruction::Print,
            Instruction::Label("a".to_string()),
            Instruction::Jump("a".to_string()),
            Instruction::JumpZero("a".to_string()),
            Instruction::JumpNotZero("a".to_string()),
            Instruction::Invert,
            Instruction::Multiply(1),
            Instruction::Divide(2),
            Instruction::Clear,
            Instruction::Dereference(3),
            Instruction::Goto(9),
            Instruction::Compare(6),
            Instruction::ShiftL(7),
            Instruction::ShiftR(8),
            Instruction::Or(10),
        ]
    );
}

#[test]
fn long_run_wraps_to_the_cell_width() {
    let tokens: Vec<Token> = (0..65_541).map(|_| Token::Plus).collect();
    assert_eq!(assemble(tokens).unwrap(), vec![Instruction::Increment(5)]);
    let tokens: Vec<Token> = (0..65_535).map(|_| Token::Minus).collect();
    assert_eq!(assemble(tokens).unwrap(), vec![Instruction::Decrement(65_535)]);
}

#[test]
fn conversion_starts_over_each_time() {
    let mut converter = BytecodeConverter::new(vec![Token::Dot, Token::Comma]);
    assert_eq!(converter.convert().unwrap(), vec![Instruction::Print, Instruction::UserInput]);
    assert_eq!(converter.convert().unwrap(), vec![Instruction::Print, Instruction::UserInput]);
    assert_eq!(assemble(vec![]).unwrap(), vec![]);
}

#[test]
fn converter_errors() {
    assert_eq!(
        message(assemble(vec![Token::Caret, Token::Dot])),
        "Expected literal instead of Dot"
    );
    assert_eq!(
        message(assemble(vec![Token::Minus, Token::RightAngle, name("x")])),
        "Expected literal instead of Identifier(\"x\")"
    );
    assert_eq!(message(assemble(vec![Token::Star])), "Expected literal instead of 'Invalid'");
    assert_eq!(
        message(assemble(vec![Token::LabelDef, Token::Literal(3)])),
        "Expected Identifier instead of 'Literal(3)'"
    );
    assert_eq!(
        message(assemble(vec![Token::OpenSquare, Token::Literal(3), Token::Dot])),
        "ProcessorError: Expected 'CloseSquare', peek=2 - "
    );
    assert_eq!(message(assemble(vec![Token::LeftAngle, Token::Dot])), "Unexpected Token 'LeftAngle'");
    assert_eq!(message(assemble(vec![Token::RightAngle])), "Unexpected Token 'RightAngle'");
    assert_eq!(message(assemble(vec![Token::Let])), "Unexpected Token 'Let'");
    assert_eq!(message(assemble(vec![Token::Invalid])), "Unexpected Token 'Invalid'");
}

#[test]
fn instruction_texts() {
    assert_eq!(Instruction::MoveStack(12).to_string(), "MoveStack(12)");
    assert_eq!(Instruction::Increment(65535).to_string(), "Increment(65535)");
    assert_eq!(Instruction::Label("a".to_string()).to_string(), "Label(\"a\")");
    assert_eq!(Instruction::JumpNotZero("b".to_string()).to_string(), "JumpNotZero(\"b\")");
    assert_eq!(Instruction::Print.to_string(), "Print");
    assert_eq!(Instruction::Invalid.to_string(), "Invalid");
    assert_eq!(Instruction::default(), Instruction::Invalid);
    assert_eq!(Instruction::Or(3).clone(), Instruction::Or(3));
}

#[test]
fn token_texts() {
    assert_eq!(Token::Plus.to_string(), "Plus");
    assert_eq!(Token::Literal(200).to_string(), "Literal(200)");
    assert_eq!(name("abc").to_string(), "Identifier(\"abc\")");
    assert_eq!(Token::default(), Token::Invalid);
    assert_eq!(name("abc").clone(), name("abc"));
}

#[test]
fn instructions_are_ordered_as_they_are_declared() {
    assert!(Instruction::Increment(9) < Instruction::Decrement(0));
    assert!(Instruction::Increment(1) < Instruction::Increment(2));
    assert!(Instruction::Label("a".to_string()) < Instruction::Label("b".to_string()));
    let mut some = vec![Instruction::Decrement(1), Instruction::Increment(3), Instruction::Increment(1)];
    some.sort();
    assert_eq!(some, vec![Instruction::Increment(1), Instruction::Increment(3), Instruction::Decrement(1)]);
}
