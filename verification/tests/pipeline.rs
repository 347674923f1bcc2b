use dsasm::bytecode::BytecodeConverter;
use dsasm::error::DSAsmError;
use dsasm::generation::{Cell, Generator};
use dsasm::interpreter::{Interpreter, Status};
use dsasm::parser::{Node, Parser};
use dsasm::tokenizer::Tokenizer;

fn parse(source: &str) -> Result<Vec<Node>, DSAsmError> {
    let tokens = Tokenizer::new(source.chars().collect()).tokenize()?;
    Parser::new(tokens).parse_all()
}

/// Runs a source text through every stage; gives the bytes written, the
/// memory at the end and the generator's cells.
fn run(source: &str, input: &[u8]) -> (Vec<u8>, Vec<u16>, Vec<Cell>) {
    let nodes = parse(source).unwrap();
    let mut generator = Generator::new(nodes);
    let tokens = generator.generate_all().unwrap();
    let program = BytecodeConverter::new(tokens).convert().unwrap();
    let mut interpreter = Interpreter::new(program);
    for b in input {
        interpreter.feed(*b);
    }
    assert_eq!(interpreter.interpret(10_000_000).unwrap(), Status::Halted);
    (interpreter.output().clone(), interpreter.memory().clone(), generator.cells().clone())
}

#[test]
fn scenario_sum_then_putchar() {
    let (output, _, _) = run("let a = 3 + 4 putchar a", &[]);
    assert_eq!(output, vec![7]);
}

#[test]
fn scenario_modulus_cell() {
    let (_, memory, cells) = run("let a = 10 let b = 3 let c = a % b", &[]);
    // `c` is the third variable declared.
    let at = cells.iter().position(|c| *c == Cell::Variable(2)).unwrap();
    assert_eq!(memory[at], 1);
}

#[test]
fn scenario_less_than_false() {
    let (output, _, _) = run("let a = 5 let b = 2 let c = a < b putchar c", &[]);
    assert_eq!(output, vec![0]);
}

#[test]
fn scenario_getchar_plus_one() {
    let (output, _, _) = run("let a = getchar let b = a + 1 putchar b", b"A");
    assert_eq!(output, b"B".to_vec());
}

#[test]
fn scenario_redeclaration_fails() {
    match parse("let x = 1 let x = 2") {
        Err(DSAsmError::ParserError(m)) => assert_eq!(m, "Variable 'x' already exists"),
        other => panic!("unexpected {:?}", other),
    }
}

#[test]
fn hexadecimal_literal_runs() {
    let (output, _, _) = run("let a = 0x41 putchar a", &[]);
    assert_eq!(output, b"A".to_vec());
}

#[test]
fn no_temporary_is_left() {
    let (_, _, cells) = run("let a = 1 + 2 * 3 let b = a - 1 putchar b", &[]);
    assert!(cells.iter().all(|c| *c != Cell::Temporary));
    assert_eq!(cells.iter().filter(|c| matches!(c, Cell::Variable(_))).count(), 2);
}

#[test]
fn less_than_follows_its_lowering() {
    // The lowering multiplies `left <= right` by `left - right`, which stops
    // at zero: the product is zero whenever the left side is not greater.
    let (output, _, _) = run("let a = 2 let b = 5 let c = a < b putchar c", &[]);
    assert_eq!(output, vec![0]);
    let (output, _, _) = run("let a = 5 let b = 5 let c = a >= b putchar c", &[]);
    assert_eq!(output, vec![1]);
}

#[test]
fn scope_statements_are_lowered_in_turn() {
    let (output, _, _) = run("let a = 1 { let b = a + 1 putchar b { putchar a } }", &[]);
    assert_eq!(output, vec![2, 1]);
}
