use dsasm::error::DSAsmError;
use dsasm::generation::Generator;
use dsasm::parser::{BinaryOperator, Expr, Node, Parser, UnaryOperator};
use dsasm::tokenizer::Tokenizer;

fn parse(source: &str) -> Vec<Node> {
    let tokens = Tokenizer::new(source.chars().collect()).tokenize().unwrap();
    Parser::new(tokens).parse_all().unwrap()
}

fn shown(source: &str) -> Vec<String> {
    parse(source).iter().map(|n| n.to_string()).collect()
}

#[test]
fn statements_are_shown() {
    assert_eq!(
        shown("let a = 1 + 2 a = getchar putchar -a return &a"),
        vec![
            "let #0 = 1 + 2",
            "#0 = getchar",
            "putchar(-${#0})",
            "return &${#0}"
        ]
    );
    assert_eq!(shown("let a = 1 if a { a = 2 a = *a }"), vec![
        "let #0 = 1",
        "if (${#0}) {\n\t#0 = 2\t#0 = *${#0}}",
    ]);
    assert_eq!(shown("let a = 1 while !a {}"), vec!["let #0 = 1", "while (!${#0}) {\n}"]);
    assert_eq!(
        shown("for (i = 0; i <= 9; i = i + 1) putchar ~i"),
        vec!["for (i = 0; ${#0} <= 9; #0 = ${#0} + 1) putchar(~${#0})"]
    );
    assert_eq!(
        shown("method add(a, b) return a + b let c = add(1, 2) let d = add()"),
        vec![
            "method add[2](a#0, b#1) return ${#0} + ${#1}",
            "let #3 = ${#2}(1, 2)",
            "let #4 = ${#2}()",
        ]
    );
    assert_eq!(Node::Invalid.to_string(), "Invalid");
    assert_eq!(Node::default(), Node::Invalid);
    assert_eq!(Expr::Literal(255).to_string(), "255");
}

#[test]
fn operators_are_shown() {
    assert_eq!(BinaryOperator::Add.to_str(), "+");
    assert_eq!(BinaryOperator::Sub.to_str(), "-");
    assert_eq!(BinaryOperator::Mult.to_str(), "*");
    assert_eq!(BinaryOperator::Div.to_str(), "/");
    assert_eq!(BinaryOperator::Modulus.to_str(), "%");
    assert_eq!(BinaryOperator::Equals.to_str(), "==");
    assert_eq!(BinaryOperator::NotEquals.to_str(), "!=");
    assert_eq!(BinaryOperator::Greater.to_str(), ">");
    assert_eq!(BinaryOperator::Less.to_str(), "<");
    assert_eq!(BinaryOperator::Grequ.to_str(), ">=");
    assert_eq!(BinaryOperator::Lessequ.to_str(), "<=");
    assert_eq!(BinaryOperator::ShiftR.to_str(), ">>");
    assert_eq!(BinaryOperator::ShiftL.to_str(), "<<");
    assert_eq!(BinaryOperator::Band.to_str(), "&");
    assert_eq!(BinaryOperator::Bor.to_str(), "|");
    assert_eq!(BinaryOperator::Bxor.to_str(), "^");
    assert_eq!(BinaryOperator::And.to_str(), "&&");
    assert_eq!(BinaryOperator::Or.to_str(), "||");
    assert_eq!(UnaryOperator::Negate.to_str(), "-");
    assert_eq!(UnaryOperator::Not.to_str(), "!");
    assert_eq!(UnaryOperator::Bnot.to_str(), "~");
}

fn compiler_message(nodes: Vec<Node>) -> String {
    match Generator::new(nodes).generate_all() {
        Err(DSAsmError::CompilerError(m)) => m,
        other => panic!("unexpected {:?}", other),
    }
}

#[test]
fn generator_errors() {
    assert_eq!(compiler_message(parse("let a = 1 if a putchar a")), "Not implemented");
    assert_eq!(compiler_message(parse("let a = 1 ^ 2")), "Not implemented");
    assert_eq!(compiler_message(parse("method f() return 1")), "Not implemented");
    assert_eq!(compiler_message(parse("let a = &1")), "Cannot reference an unstable address");
    assert_eq!(
        compiler_message(vec![Node::Putchar(Expr::Variable(4))]),
        "Variable #4 does not exist"
    );
    assert_eq!(
        compiler_message(vec![Node::VarSet(5, Expr::Literal(1))]),
        "Variable #5 does not exist"
    );
    assert_eq!(
        compiler_message(vec![
            Node::VarDecl(6, Expr::Literal(1)),
            Node::VarDecl(6, Expr::Literal(2))
        ]),
        "Variable #6 already exists"
    );
}

#[test]
fn address_of_a_variable_is_its_cell() {
    let nodes = parse("let a = 7 let b = &a let c = *b putchar c");
    let mut generator = Generator::new(nodes);
    let tokens = generator.generate_all().unwrap();
    assert_eq!(generator.find_variable(0), Some(0));
    assert_eq!(generator.find_variable(1), Some(1));
    assert_eq!(generator.find_variable(9), None);
    let program = dsasm::bytecode::BytecodeConverter::new(tokens).convert().unwrap();
    let mut interpreter = dsasm::interpreter::Interpreter::new(program);
    interpreter.interpret(1_000_000).unwrap();
    assert_eq!(interpreter.memory()[1], 0);
    assert_eq!(interpreter.output(), &vec![7]);
}

#[test]
fn a_copy_equals_what_it_was_made_from() {
    let program = parse(
        "method add(a, b) return a + b \
         let c = add(1, -2) \
         for (i = 0; i < 3; i = i + 1) { putchar *&c } \
         if !c { c = getchar } \
         while c c = c - 1",
    );
    for node in &program {
        let copy = node.clone();
        assert_eq!(&copy, node);
        assert_eq!(copy.to_string(), node.to_string());
    }
    let whole = Node::Scope(program.clone());
    assert_eq!(whole.clone(), whole);
    if let Node::MethodDecl(m) = &program[0] {
        let copy = m.clone();
        assert_eq!(&copy, m);
        assert_eq!(copy.parameters[1].clone(), m.parameters[1]);
    } else {
        panic!("a method comes first");
    }
    if let Node::For(f) = &program[2] {
        assert_eq!(&f.clone(), f);
        if let Expr::Binary(b) = &f.condition {
            assert_eq!(&b.clone(), b);
        } else {
            panic!("the condition compares");
        }
    } else {
        panic!("a loop comes third");
    }
    let negated = Expr::Unary(dsasm::parser::Unary {
        right: Box::new(Expr::Literal(2)),
        operator: UnaryOperator::Negate,
    });
    assert_eq!(negated.clone(), negated);
}
