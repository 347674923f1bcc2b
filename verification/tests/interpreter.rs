use dsasm::bytecode::{BytecodeConverter, Instruction};
use dsasm::error::DSAsmError;
use dsasm::interpreter::{Interpreter, Status};
use dsasm::tokenizer::{Token, Tokenizer};

fn assemble_text(source: &str) -> Vec<Instruction> {
    let tokens = Tokenizer::new(source.chars().collect()).tokenize().unwrap();
    BytecodeConverter::new(tokens).convert().unwrap()
}

#[test]
fn raw_loop_prints_and_terminates() {
    let program = assemble_text(":loop+++++++++.-?loop");
    assert_eq!(
        program,
        vec![
            Instruction::Label("loop".to_string()),
            Instruction::Increment(9),
            Instruction::Print,
            Instruction::Decrement(1),
            Instruction::JumpZero("loop".to_string()),
        ]
    );
    let mut interpreter = Interpreter::new(program);
    let status = interpreter.interpret(100_000).unwrap();
    assert_eq!(status, Status::Halted);
    assert_eq!(interpreter.output(), &vec![9u8]);
    assert_eq!(interpreter.memory()[0], 8);
}

#[test]
fn duplicate_label_is_rejected() {
    let program = assemble_text(":a :a");
    let mut interpreter = Interpreter::new(program);
    match interpreter.interpret(10) {
        Err(DSAsmError::InterpreterError(m)) => assert_eq!(m, "Label 'a' already exists"),
        other => panic!("unexpected {:?}", other),
    }
}

#[test]
fn tokens_of_punctuation() {
    let tokens = Tokenizer::new("<>+-".chars().collect()).tokenize().unwrap();
    assert_eq!(tokens, vec![Token::LeftAngle, Token::RightAngle, Token::Plus, Token::Minus]);
}
