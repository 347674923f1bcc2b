use dsasm::bytecode::Instruction;
use dsasm::error::{DSAsmError, ErrorKind};
use dsasm::interpreter::{Interpreter, Status, STACK_SIZE};

fn run(program: Vec<Instruction>, input: &[u8]) -> Result<Interpreter, DSAsmError> {
    let mut interpreter = Interpreter::new(program);
    for b in input {
        interpreter.feed(*b);
    }
    let status = interpreter.interpret(100_000)?;
    assert_eq!(status, Status::Halted);
    Ok(interpreter)
}

fn message(r: Result<Interpreter, DSAsmError>) -> String {
    match r {
        Err(DSAsmError::InterpreterError(m)) => m,
        Err(other) => panic!("unexpected {:?}", other),
        Ok(_) => panic!("the program ran"),
    }
}

fn label(text: &str) -> Instruction {
    Instruction::Label(text.to_string())
}

#[test]
fn memory_starts_at_zero() {
    let interpreter = run(vec![], &[]).unwrap();
    assert_eq!(interpreter.memory().len(), STACK_SIZE);
    assert_eq!(STACK_SIZE, 1024);
    assert!(interpreter.memory().iter().all(|c| *c == 0));
    assert_eq!(interpreter.pointer(), 0);
    assert!(interpreter.output().is_empty());
}

#[test]
fn arithmetic_wraps() {
    let m = run(vec![Instruction::Decrement(1)], &[]).unwrap();
    assert_eq!(m.memory()[0], 0xffff);
    let m = run(vec![Instruction::Increment(0xffff), Instruction::Increment(3)], &[]).unwrap();
    assert_eq!(m.memory()[0], 2);
    let m = run(
        vec![
            Instruction::Increment(300),
            Instruction::MoveStack(1),
            Instruction::Increment(300),
            Instruction::Multiply(0),
        ],
        &[],
    )
    .unwrap();
    assert_eq!(m.memory()[1], (300u32 * 300 % 65536) as u16);
}

#[test]
fn division_gives_quotient_and_remainder() {
    let m = run(
        vec![
            Instruction::Increment(17),
            Instruction::MoveStack(1),
            Instruction::Increment(5),
            Instruction::MoveStack(0),
            Instruction::Divide(1),
        ],
        &[],
    )
    .unwrap();
    assert_eq!(m.memory()[0], 3);
    assert_eq!(m.memory()[1], 2);
    // A cell divided by itself: the remainder is written last.
    let m = run(vec![Instruction::Increment(9), Instruction::Divide(0)], &[]).unwrap();
    assert_eq!(m.memory()[0], 0);
    assert_eq!(
        message(run(vec![Instruction::Increment(9), Instruction::Divide(1)], &[])),
        "Division by zero"
    );
}

#[test]
fn compare_invert_clear_or_shift() {
    let m = run(
        vec![
            Instruction::Increment(6),
            Instruction::MoveStack(1),
            Instruction::Increment(3),
            Instruction::MoveStack(2),
            Instruction::Increment(6),
            Instruction::Compare(1),
            Instruction::MoveStack(3),
            Instruction::Increment(3),
            Instruction::Compare(0),
            Instruction::MoveStack(4),
            Instruction::Increment(6),
            Instruction::Compare(0),
            Instruction::MoveStack(5),
            Instruction::Invert,
            Instruction::MoveStack(0),
            Instruction::Invert,
            Instruction::MoveStack(6),
            Instruction::Increment(0b1001),
            Instruction::Or(1),
            Instruction::MoveStack(7),
            Instruction::Increment(1),
            Instruction::ShiftL(1),
            Instruction::MoveStack(8),
            Instruction::Increment(0x8000),
            Instruction::ShiftR(1),
            Instruction::MoveStack(9),
            Instruction::Increment(19),
            Instruction::MoveStack(10),
            Instruction::Increment(1),
            Instruction::ShiftL(9),
            Instruction::MoveStack(1),
            Instruction::Clear,
        ],
        &[],
    )
    .unwrap();
    assert_eq!(m.memory()[2], 1);
    assert_eq!(m.memory()[3], 2);
    assert_eq!(m.memory()[4], 2);
    assert_eq!(m.memory()[5], 1);
    assert_eq!(m.memory()[0], 0);
    assert_eq!(m.memory()[6], 0b1011);
    assert_eq!(m.memory()[7], 8);
    assert_eq!(m.memory()[8], 0x1000);
    // The shift count is taken modulo the width of a cell: 19 shifts by 3.
    assert_eq!(m.memory()[10], 8);
    assert_eq!(m.memory()[1], 0);
    assert_eq!(m.pointer(), 1);
}

#[test]
fn dereference_loads_through_a_cell() {
    let m = run(
        vec![
            Instruction::MoveStack(20),
            Instruction::Increment(77),
            Instruction::MoveStack(1),
            Instruction::Increment(20),
            Instruction::MoveStack(2),
            Instruction::Dereference(1),
        ],
        &[],
    )
    .unwrap();
    assert_eq!(m.memory()[2], 77);
    assert_eq!(
        message(run(vec![Instruction::Increment(5000), Instruction::Dereference(0)], &[])),
        "Invalid address 5000"
    );
}

#[test]
fn jumps_follow_labels() {
    // Counts the cell down from three and prints it each time.
    let m = run(
        vec![
            Instruction::Increment(3),
            label("top"),
            Instruction::Print,
            Instruction::Decrement(1),
            Instruction::JumpNotZero("top".to_string()),
            Instruction::JumpZero("end".to_string()),
            Instruction::Print,
            label("end"),
            Instruction::Jump("last".to_string()),
            Instruction::Print,
            label("last"),
        ],
        &[],
    )
    .unwrap();
    assert_eq!(m.output(), &vec![3, 2, 1]);
}

#[test]
fn goto_is_absolute() {
    let m = run(vec![Instruction::Goto(2), Instruction::Increment(1), Instruction::Increment(4)], &[])
        .unwrap();
    assert_eq!(m.memory()[0], 4);
    let m = run(vec![Instruction::Goto(200), Instruction::Increment(1)], &[]).unwrap();
    assert_eq!(m.memory()[0], 0);
}

#[test]
fn print_writes_the_low_byte() {
    let m = run(vec![Instruction::Increment(0x1234), Instruction::Print], &[]).unwrap();
    assert_eq!(m.output(), &vec![0x34]);
}

#[test]
fn input_is_read_byte_by_byte() {
    let m = run(
        vec![
            Instruction::UserInput,
            Instruction::Print,
            Instruction::UserInput,
            Instruction::Print,
        ],
        b"hi",
    )
    .unwrap();
    assert_eq!(m.output(), &b"hi".to_vec());
    assert_eq!(m.memory()[0], b'i' as u16);
}

#[test]
fn same_program_and_input_give_same_output() {
    let program = || {
        vec![
            Instruction::UserInput,
            label("again"),
            Instruction::Print,
            Instruction::Decrement(7),
            Instruction::JumpNotZero("again".to_string()),
        ]
    };
    let first = run(program(), &[21]).unwrap();
    let second = run(program(), &[21]).unwrap();
    assert_eq!(first.output(), second.output());
    assert_eq!(first.output(), &vec![21, 14, 7]);
    assert_eq!(first.memory(), second.memory());
}

#[test]
fn a_machine_without_input_waits() {
    let mut interpreter = Interpreter::new(vec![Instruction::UserInput, Instruction::Print]);
    assert_eq!(interpreter.interpret(10).unwrap(), Status::Starved);
    assert_eq!(interpreter.status(), Status::Starved);
    assert_eq!(interpreter.step().unwrap(), Status::Starved);
    interpreter.feed(b'x');
    assert_eq!(interpreter.status(), Status::Running);
    assert_eq!(interpreter.step().unwrap(), Status::Running);
    assert_eq!(interpreter.run(10).unwrap(), Status::Halted);
    assert_eq!(interpreter.take_output(), b"x".to_vec());
    assert!(interpreter.output().is_empty());
    assert_eq!(interpreter.step().unwrap(), Status::Halted);
}

#[test]
fn the_step_limit_stops_a_loop() {
    let mut interpreter =
        Interpreter::new(vec![label("spin"), Instruction::Jump("spin".to_string())]);
    assert_eq!(interpreter.interpret(1000).unwrap(), Status::Running);
    assert_eq!(interpreter.run(0).unwrap(), Status::Running);
}

#[test]
fn interpreter_errors() {
    assert_eq!(message(run(vec![Instruction::MoveStack(1024)], &[])), "Invalid address 1024");
    assert!(run(vec![Instruction::MoveStack(1023)], &[]).is_ok());
    assert_eq!(message(run(vec![Instruction::Multiply(2000)], &[])), "Invalid address 2000");
    assert_eq!(
        message(run(vec![Instruction::Jump("nowhere".to_string())], &[])),
        "Label 'nowhere' does not exists"
    );
    // A conditional jump needs its label even when it is not taken.
    assert_eq!(
        message(run(vec![Instruction::JumpNotZero("nowhere".to_string())], &[])),
        "Label 'nowhere' does not exists"
    );
    assert_eq!(
        message(run(vec![label("a"), label("b"), label("a")], &[])),
        "Label 'a' already exists"
    );
    assert_eq!(message(run(vec![Instruction::Invalid], &[])), "Unexpected Instruction 'Invalid'");
}

#[test]
fn errors_show_their_kind() {
    let all = [
        (DSAsmError::ProcessorError("m".into()), ErrorKind::Processor, "ProcessorError: m"),
        (DSAsmError::TokenizerError("m".into()), ErrorKind::Tokenizer, "TokenizerError: m"),
        (DSAsmError::ParserError("m".into()), ErrorKind::Parser, "ParserError: m"),
        (DSAsmError::ConverterError("m".into()), ErrorKind::Converter, "ConverterError: m"),
        (DSAsmError::InterpreterError("m".into()), ErrorKind::Interpreter, "InterpreterError: m"),
        (DSAsmError::CompilerError("m".into()), ErrorKind::Compiler, "CompilerError: m"),
        (DSAsmError::ArgumentError("m".into()), ErrorKind::Argument, "ArgumentError: m"),
        (DSAsmError::FileError("m".into()), ErrorKind::File, "FileError: m"),
        (DSAsmError::GenericError("m".into()), ErrorKind::Generic, "GenericError: m"),
    ];
    for (error, kind, shown) in all {
        assert_eq!(error.kind(), kind);
        assert_eq!(error.message(), "m");
        assert_eq!(error.to_string(), shown);
        assert_eq!(DSAsmError::new(kind, "m".to_string()).to_string(), shown);
    }
}

#[test]
fn a_failed_run_keeps_what_was_written() {
    let program = vec![
        Instruction::Increment(65),
        Instruction::Print,
        Instruction::MoveStack(3),
        Instruction::Increment(2),
        Instruction::Divide(9),
        Instruction::Print,
    ];
    let mut interpreter = Interpreter::new(program);
    assert!(interpreter.interpret(100).is_err());
    // The machine is as it was before the instruction that failed.
    assert_eq!(interpreter.output(), &vec![65]);
    assert_eq!(interpreter.memory()[0], 65);
    assert_eq!(interpreter.memory()[3], 2);
    assert_eq!(interpreter.pointer(), 3);
    assert!(interpreter.step().is_err());
    assert_eq!(interpreter.output(), &vec![65]);
    assert_eq!(interpreter.status(), Status::Running);
}
