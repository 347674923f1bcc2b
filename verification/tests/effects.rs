use dsasm::bytecode::{BytecodeConverter, Instruction};
use dsasm::error::DSAsmError;
use dsasm::generation::{Cell, Generator};
use dsasm::interpreter::{Interpreter, Status};
use dsasm::parser::{Expr, Node};
use dsasm::tokenizer::Token;

/// Sets the cells `first` and `second` to the given values, then runs what
/// `emit` adds; gives the memory at the end.
fn run_on(
    first: (u16, u16),
    second: (u16, u16),
    emit: impl FnOnce(&mut Generator),
) -> (Vec<u16>, usize) {
    let mut generator = Generator::new(Vec::new());
    generator.clear(first.0);
    generator.add(first.1);
    generator.clear(second.0);
    generator.add(second.1);
    emit(&mut generator);
    let tokens = generator.emitted().clone();
    let program = BytecodeConverter::new(tokens).convert().unwrap();
    let mut interpreter = Interpreter::new(program);
    assert_eq!(interpreter.interpret(10_000_000).unwrap(), Status::Halted);
    (interpreter.memory().clone(), interpreter.pointer())
}

#[test]
fn copy_keeps_source_and_fills_destination() {
    for value in [0u16, 1, 2, 77, 300] {
        let (memory, pointer) = run_on((5, value), (6, 9), |g| {
            // Cells 0 and up are unused, so the temporary is cell 0.
            g.copy(6, 5).unwrap();
        });
        assert_eq!(memory[6], value);
        assert_eq!(memory[5], value);
        assert_eq!(memory[0], 0);
        assert_eq!(pointer, 6);
    }
}

#[test]
fn move_empties_source_and_replaces_destination() {
    for (held, value) in [(0u16, 0u16), (0, 5), (9, 5), (9, 0)] {
        let (memory, _) = run_on((3, value), (4, held), |g| g.mov(4, 3));
        assert_eq!(memory[4], value);
        assert_eq!(memory[3], 0);
    }
}

#[test]
fn mem_add_wraps() {
    let (memory, _) = run_on((3, 7), (4, 0xfffe), |g| g.mem_add(4, 3));
    assert_eq!(memory[4], 5);
    assert_eq!(memory[3], 0);
    let (memory, _) = run_on((3, 0), (4, 12), |g| g.mem_add(4, 3));
    assert_eq!(memory[4], 12);
    assert_eq!(memory[3], 0);
}

#[test]
fn mem_sub_stops_at_zero() {
    let (memory, _) = run_on((3, 4), (4, 10), |g| g.mem_sub(4, 3));
    assert_eq!(memory[4], 6);
    assert_eq!(memory[3], 0);
    let (memory, _) = run_on((3, 10), (4, 4), |g| g.mem_sub(4, 3));
    assert_eq!(memory[4], 0);
    assert_eq!(memory[3], 6);
}

#[test]
fn move_emits_its_tokens() {
    let mut generator = Generator::new(Vec::new());
    generator.mov(2, 1);
    let name = |text: &str| Token::Identifier(text.to_string());
    assert_eq!(
        generator.emitted(),
        &vec![
            Token::Caret,
            Token::Literal(2),
            Token::Tilde,
            Token::Caret,
            Token::Literal(1),
            Token::Jze,
            name("__0_skip_move"),
            Token::LabelDef,
            name("__0_move"),
            Token::Caret,
            Token::Literal(2),
            Token::Plus,
            Token::Caret,
            Token::Literal(1),
            Token::Minus,
            Token::Jnze,
            name("__0_move"),
            Token::LabelDef,
            name("__0_skip_move"),
        ]
    );
    assert_eq!(generator.pointer(), 1);
}

#[test]
fn labels_are_never_reused() {
    let mut generator = Generator::new(Vec::new());
    generator.mem_add(1, 2);
    generator.mem_sub(1, 2);
    generator.copy(3, 4).unwrap();
    let tokens = generator.emitted().clone();
    let program = BytecodeConverter::new(tokens).convert().unwrap();
    let mut labels: Vec<String> = program
        .iter()
        .filter_map(|i| match i {
            Instruction::Label(name) => Some(name.clone()),
            _ => None,
        })
        .collect();
    let count = labels.len();
    labels.sort();
    labels.dedup();
    assert_eq!(labels.len(), count);
    assert_eq!(count, 8);
}

#[test]
fn allocation_goes_left_to_right_and_runs_out() {
    let mut generator = Generator::new(Vec::new());
    assert_eq!(generator.allocate().unwrap(), 0);
    assert_eq!(generator.alloc_temp().unwrap(), 1);
    assert_eq!(generator.alloc_param(9).unwrap(), 2);
    assert_eq!(generator.cells()[0], Cell::Used);
    assert_eq!(generator.cells()[1], Cell::Temporary);
    assert_eq!(generator.cells()[2], Cell::Parameter(9));
    generator.free(1);
    assert_eq!(generator.cells()[1], Cell::Unused);
    assert_eq!(generator.alloc_temp().unwrap(), 1);
    for expected in 3u16..1024 {
        assert_eq!(generator.allocate().unwrap(), expected);
    }
    // The whole array is taken: the allocation fails and changes nothing.
    let cells = generator.cells().clone();
    let emitted = generator.emitted().clone();
    let pointer = generator.pointer();
    match generator.allocate() {
        Err(DSAsmError::CompilerError(m)) => assert_eq!(m, "Not enough memory!"),
        other => panic!("unexpected {:?}", other),
    }
    assert_eq!(generator.cells(), &cells);
    assert_eq!(generator.cells().len(), 1024);
    assert_eq!(generator.emitted(), &emitted);
    assert_eq!(generator.pointer(), pointer);
}

#[test]
fn allocation_hands_out_cell_256() {
    let mut generator = Generator::new(Vec::new());
    for expected in 0u16..256 {
        assert_eq!(generator.alloc_temp().unwrap(), expected);
    }
    assert_eq!(generator.allocate().unwrap(), 256);
    assert_eq!(generator.cells()[256], Cell::Used);
    // A temporary that no literal can address is freed without code.
    assert_eq!(generator.alloc_temp().unwrap(), 257);
    generator.free_temps();
    assert_eq!(generator.cells()[257], Cell::Unused);
    assert_eq!(generator.cells()[256], Cell::Used);
    assert!(generator.cells().iter().all(|c| *c != Cell::Temporary));
    assert_eq!(generator.emitted().len(), 3 * 256);
    assert_eq!(&generator.emitted()[..3], &[Token::Caret, Token::Literal(255), Token::Tilde]);
}

#[test]
fn lowering_fails_before_it_emits_an_address_too_large() {
    let mut generator = Generator::new(Vec::new());
    for _ in 0..256 {
        generator.allocate().unwrap();
    }
    let cells = generator.cells().clone();
    match generator.generate_expr(&Expr::Literal(1)) {
        Err(DSAsmError::CompilerError(m)) => assert_eq!(m, "Not enough addressable memory!"),
        other => panic!("unexpected {:?}", other),
    }
    assert_eq!(generator.cells(), &cells);
    assert!(generator.emitted().is_empty());
    match generator.generate(&Node::VarDecl(1, Expr::Literal(1))) {
        Err(DSAsmError::CompilerError(m)) => assert_eq!(m, "Not enough addressable memory!"),
        other => panic!("unexpected {:?}", other),
    }
    assert_eq!(generator.cells(), &cells);
    assert!(generator.emitted().is_empty());
}

#[test]
fn a_refused_reference_leaves_the_generator_untouched() {
    let mut generator = Generator::new(Vec::new());
    let e = Expr::Reference(Box::new(Expr::Literal(1)));
    match generator.generate_expr(&e) {
        Err(DSAsmError::CompilerError(m)) => assert_eq!(m, "Cannot reference an unstable address"),
        other => panic!("unexpected {:?}", other),
    }
    assert!(generator.cells().iter().all(|c| *c == Cell::Unused));
    assert!(generator.emitted().is_empty());
    assert_eq!(generator.pointer(), 0);
}

#[test]
fn a_failed_copy_has_emitted_its_start() {
    let mut generator = Generator::new(Vec::new());
    for _ in 0..1024 {
        generator.allocate().unwrap();
    }
    assert!(generator.copy(1, 2).is_err());
    assert_eq!(
        generator.emitted(),
        &vec![
            Token::Caret,
            Token::Literal(1),
            Token::Tilde,
            Token::Caret,
            Token::Literal(2),
            Token::Jze,
            Token::Identifier("__0_skip_copy".to_string()),
        ]
    );
}

#[test]
fn free_temps_frees_the_highest_first() {
    let mut generator = Generator::new(Vec::new());
    generator.alloc_temp().unwrap();
    generator.allocate().unwrap();
    generator.alloc_temp().unwrap();
    generator.free_temps();
    assert_eq!(
        generator.emitted(),
        &vec![
            Token::Caret,
            Token::Literal(2),
            Token::Tilde,
            Token::Caret,
            Token::Literal(0),
            Token::Tilde,
        ]
    );
    assert_eq!(generator.cells()[0], Cell::Unused);
    assert_eq!(generator.cells()[1], Cell::Used);
    assert_eq!(generator.cells()[2], Cell::Unused);
}

#[test]
fn cell_texts() {
    assert_eq!(Cell::Temporary.to_string(), "Temp");
    assert_eq!(Cell::Unused.to_string(), "Unus");
    assert_eq!(Cell::Used.to_string(), "Used");
    assert_eq!(Cell::Return.to_string(), "Rtrn");
    assert_eq!(Cell::Variable(7).to_string(), "#007");
    assert_eq!(Cell::Variable(42).to_string(), "#042");
    assert_eq!(Cell::Variable(1234).to_string(), "#1234");
    assert_eq!(Cell::Parameter(5).to_string(), "§005");
    assert!(Cell::Unused.is_unused());
    assert!(Cell::Used.is_used());
    assert!(Cell::Temporary.is_temp());
    assert!(Cell::Variable(3).is_variable());
    assert!(Cell::Variable(3).is_variable_of_id(3));
    assert!(!Cell::Variable(3).is_variable_of_id(4));
    assert_eq!(Cell::Variable(3).get_var_id(), Some(3));
    assert_eq!(Cell::Used.get_var_id(), None);
    assert_eq!(Cell::default(), Cell::Unused);
}

#[test]
fn elementary_instructions_emit_their_tokens() {
    let name = |text: &str| Token::Identifier(text.to_string());
    let mut g = Generator::new(Vec::new());
    g.goto(7);
    g.add(2);
    g.sub(1);
    g.goto_ins(3);
    g.putchar();
    g.getchar();
    g.create_label("a");
    g.jump("a");
    g.jze("a");
    g.jnze("a");
    g.mul(4);
    g.div(5);
    g.invert();
    g.cmp(1, 2);
    g.or(3, 4);
    g.reduce();
    g.shift_left(6);
    g.shift_right(6);
    g.dereference(9);
    assert_eq!(g.pointer(), 3);
    assert_eq!(
        g.emitted(),
        &vec![
            Token::Caret,
            Token::Literal(7),
            Token::Plus,
            Token::Plus,
            Token::Minus,
            Token::Minus,
            Token::RightAngle,
            Token::Literal(3),
            Token::Dot,
            Token::Comma,
            Token::LabelDef,
            name("a"),
            Token::Jmp,
            name("a"),
            Token::Jze,
            name("a"),
            Token::Jnze,
            name("a"),
            Token::Star,
            Token::Literal(4),
            Token::Slash,
            Token::Literal(5),
            Token::Exclamation,
            Token::Caret,
            Token::Literal(1),
            Token::Apostrophe,
            Token::Literal(2),
            Token::Caret,
            Token::Literal(3),
            Token::Pipe,
            Token::Literal(4),
            Token::Exclamation,
            Token::Exclamation,
            Token::LeftAngle,
            Token::LeftAngle,
            Token::Literal(6),
            Token::RightAngle,
            Token::RightAngle,
            Token::Literal(6),
            Token::OpenSquare,
            Token::Literal(9),
            Token::CloseSquare,
        ]
    );
}

#[test]
fn generated_code_always_assembles() {
    let nodes = vec![
        Node::VarDecl(1, Expr::Literal(0)),
        Node::VarDecl(2, Expr::Reference(Box::new(Expr::Variable(1)))),
        Node::Putchar(Expr::Dereference(Box::new(Expr::Variable(2)))),
    ];
    let mut generator = Generator::new(nodes);
    let tokens = generator.generate_all().unwrap();
    assert!(BytecodeConverter::new(tokens).convert().is_ok());
}
