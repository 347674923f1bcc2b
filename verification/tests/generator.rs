use dsasm::bytecode::{BytecodeConverter, Instruction};
use dsasm::generation::{Cell, Generator};
use dsasm::interpreter::{Interpreter, Status};
use dsasm::parser::{Binary, BinaryOperator, Expr, Node, Unary, UnaryOperator};

fn binary(left: Expr, operator: BinaryOperator, right: Expr) -> Expr {
    Expr::Binary(Binary { left: Box::new(left), right: Box::new(right), operator })
}

fn unary(operator: UnaryOperator, right: Expr) -> Expr {
    Expr::Unary(Unary { right: Box::new(right), operator })
}

/// Lowers, assembles and runs the nodes; gives the output and the memory.
fn run_nodes(nodes: Vec<Node>, input: &[u8]) -> (Vec<u8>, Vec<u16>, Vec<Cell>) {
    let mut generator = Generator::new(nodes);
    let tokens = generator.generate_all().unwrap();
    let program = BytecodeConverter::new(tokens).convert().unwrap();
    let mut interpreter = Interpreter::new(program);
    for b in input {
        interpreter.feed(*b);
    }
    let status = interpreter.interpret(10_000_000).unwrap();
    assert_eq!(status, Status::Halted);
    (interpreter.output().clone(), interpreter.memory().clone(), generator.cells().clone())
}

fn value_of(operator: BinaryOperator, left: u8, right: u8) -> u16 {
    let (_, memory, cells) = run_nodes(
        vec![Node::VarDecl(7, binary(Expr::Literal(left), operator, Expr::Literal(right)))],
        &[],
    );
    let at = cells.iter().position(|c| *c == Cell::Variable(7)).unwrap();
    memory[at]
}

#[test]
fn sum_is_printed() {
    let (output, _, _) = run_nodes(
        vec![
            Node::VarDecl(0, binary(Expr::Literal(3), BinaryOperator::Add, Expr::Literal(4))),
            Node::Putchar(Expr::Variable(0)),
        ],
        &[],
    );
    assert_eq!(output, vec![7]);
}

#[test]
fn remainder_lands_in_its_variable() {
    let (_, memory, cells) = run_nodes(
        vec![
            Node::VarDecl(0, Expr::Literal(10)),
            Node::VarDecl(1, Expr::Literal(3)),
            Node::VarDecl(2, binary(Expr::Variable(0), BinaryOperator::Modulus, Expr::Variable(1))),
        ],
        &[],
    );
    let at = cells.iter().position(|c| *c == Cell::Variable(2)).unwrap();
    assert_eq!(memory[at], 1);
    assert!(cells.iter().all(|c| *c != Cell::Temporary));
}

#[test]
fn input_plus_one_is_printed() {
    let (output, _, _) = run_nodes(
        vec![
            Node::VarDecl(0, Expr::UserInput),
            Node::VarDecl(1, binary(Expr::Variable(0), BinaryOperator::Add, Expr::Literal(1))),
            Node::Putchar(Expr::Variable(1)),
        ],
        b"A",
    );
    assert_eq!(output, b"B".to_vec());
}

#[test]
fn arithmetic_values() {
    assert_eq!(value_of(BinaryOperator::Add, 200, 100), 300);
    assert_eq!(value_of(BinaryOperator::Sub, 9, 4), 5);
    assert_eq!(value_of(BinaryOperator::Sub, 4, 9), 0);
    assert_eq!(value_of(BinaryOperator::Mult, 20, 30), 600);
    assert_eq!(value_of(BinaryOperator::Div, 17, 5), 3);
    assert_eq!(value_of(BinaryOperator::Modulus, 17, 5), 2);
    assert_eq!(value_of(BinaryOperator::ShiftL, 3, 4), 48);
    assert_eq!(value_of(BinaryOperator::ShiftR, 48, 4), 3);
    assert_eq!(value_of(BinaryOperator::Bor, 0b1010, 0b0110), 0b1110);
    assert_eq!(value_of(BinaryOperator::Band, 0b1010, 0b0110), 0b0010);
}

#[test]
fn comparison_values() {
    // Equality rests on a subtraction that stops at zero.
    assert_eq!(value_of(BinaryOperator::Equals, 5, 5), 1);
    assert_eq!(value_of(BinaryOperator::Equals, 6, 5), 0);
    assert_eq!(value_of(BinaryOperator::NotEquals, 6, 5), 1);
    assert_eq!(value_of(BinaryOperator::NotEquals, 5, 5), 0);
    assert_eq!(value_of(BinaryOperator::Greater, 5, 2), 1);
    assert_eq!(value_of(BinaryOperator::Greater, 2, 5), 0);
    assert_eq!(value_of(BinaryOperator::Lessequ, 2, 5), 1);
    assert_eq!(value_of(BinaryOperator::Lessequ, 5, 2), 0);
    assert_eq!(value_of(BinaryOperator::Less, 5, 2), 0);
    assert_eq!(value_of(BinaryOperator::And, 3, 4), 1);
    assert_eq!(value_of(BinaryOperator::And, 3, 0), 0);
    assert_eq!(value_of(BinaryOperator::Or, 0, 4), 1);
    assert_eq!(value_of(BinaryOperator::Or, 0, 0), 0);
}

#[test]
fn unary_values() {
    let value = |operator: UnaryOperator, operand: u8| {
        let (_, memory, cells) =
            run_nodes(vec![Node::VarDecl(1, unary(operator, Expr::Literal(operand)))], &[]);
        memory[cells.iter().position(|c| *c == Cell::Variable(1)).unwrap()]
    };
    assert_eq!(value(UnaryOperator::Not, 0), 1);
    assert_eq!(value(UnaryOperator::Not, 9), 0);
    assert_eq!(value(UnaryOperator::Bnot, 5), 0xffff - 5);
    assert_eq!(value(UnaryOperator::Negate, 5), 0xffff - 5 + 1);
}

#[test]
fn cells_are_ordered_as_they_are_declared() {
    assert!(Cell::Unused < Cell::Used);
    assert!(Cell::Used < Cell::Variable(0));
    assert!(Cell::Variable(1) < Cell::Variable(2));
    assert!(Cell::Variable(u64::MAX) < Cell::Temporary);
    assert_eq!(Cell::Variable(3).max(Cell::Variable(2)), Cell::Variable(3));
}

#[test]
fn the_pointer_is_where_the_code_moved_last() {
    let fresh = Generator::new(vec![]);
    assert_eq!(fresh.pointer(), 0);
    let nodes = vec![
        Node::VarDecl(0, Expr::Literal(3)),
        Node::VarDecl(1, binary(Expr::Variable(0), BinaryOperator::Mult, Expr::Literal(5))),
        Node::VarSet(0, unary(UnaryOperator::Not, Expr::Variable(1))),
        Node::Putchar(binary(Expr::Variable(0), BinaryOperator::Sub, Expr::Variable(1))),
    ];
    let mut generator = Generator::new(nodes);
    let tokens = generator.generate_all().unwrap();
    let code = BytecodeConverter::new(tokens).convert().unwrap();
    let last = code
        .iter()
        .rev()
        .find_map(|i| if let Instruction::MoveStack(a) = i { Some(*a) } else { None })
        .unwrap();
    assert_eq!(generator.pointer(), last);

    let mut by_hand = Generator::new(vec![]);
    by_hand.goto(7);
    by_hand.add(2);
    by_hand.putchar();
    assert_eq!(by_hand.pointer(), 7);
    by_hand.mov(3, 7);
    assert_eq!(by_hand.pointer(), 7);
    by_hand.mem_add(4, 3);
    assert_eq!(by_hand.pointer(), 3);
}
