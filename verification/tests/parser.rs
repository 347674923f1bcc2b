use dsasm::error::DSAsmError;
use dsasm::parser::{Binary, BinaryOperator, Expr, Node, Parser, Unary, UnaryOperator};
use dsasm::tokenizer::{Token, Tokenizer};

fn parse(source: &str) -> Result<Vec<Node>, DSAsmError> {
    let tokens = Tokenizer::new(source.chars().collect()).tokenize().unwrap();
    Parser::new(tokens).parse_all()
}

fn binary(left: Expr, operator: BinaryOperator, right: Expr) -> Expr {
    Expr::Binary(Binary { left: Box::new(left), right: Box::new(right), operator })
}

fn message(r: Result<Vec<Node>, DSAsmError>) -> String {
    match r {
        Err(DSAsmError::ParserError(m)) => m,
        other => panic!("unexpected {:?}", other),
    }
}

#[test]
fn declaration_and_assignment() {
    let nodes = parse("let a = 1 a = 2").unwrap();
    assert_eq!(
        nodes,
        vec![Node::VarDecl(0, Expr::Literal(1)), Node::VarSet(0, Expr::Literal(2))]
    );
}

#[test]
fn identities_are_distinct() {
    let nodes = parse("let a = 1 { let b = 2 } let c = a").unwrap();
    assert_eq!(
        nodes,
        vec![
            Node::VarDecl(0, Expr::Literal(1)),
            Node::Scope(vec![Node::VarDecl(1, Expr::Literal(2))]),
            Node::VarDecl(2, Expr::Variable(0)),
        ]
    );
}

#[test]
fn tighter_operator_is_applied_first() {
    // `*` binds tighter than `+`: the product is an operand of the sum.
    let nodes = parse("let a = 1 * 2 + 3").unwrap();
    assert_eq!(
        nodes,
        vec![Node::VarDecl(
            0,
            binary(
                binary(Expr::Literal(1), BinaryOperator::Mult, Expr::Literal(2)),
                BinaryOperator::Add,
                Expr::Literal(3)
            )
        )]
    );
    let nodes = parse("let a = 1 + 2 * 3").unwrap();
    assert_eq!(
        nodes,
        vec![Node::VarDecl(
            0,
            binary(
                Expr::Literal(1),
                BinaryOperator::Add,
                binary(Expr::Literal(2), BinaryOperator::Mult, Expr::Literal(3))
            )
        )]
    );
}

#[test]
fn precedence_levels() {
    assert_eq!(BinaryOperator::Or.precedence(), 0);
    assert_eq!(BinaryOperator::And.precedence(), 1);
    assert_eq!(BinaryOperator::Bor.precedence(), 2);
    assert_eq!(BinaryOperator::Bxor.precedence(), 3);
    assert_eq!(BinaryOperator::Band.precedence(), 4);
    assert_eq!(BinaryOperator::Equals.precedence(), 5);
    assert_eq!(BinaryOperator::NotEquals.precedence(), 5);
    assert_eq!(BinaryOperator::Greater.precedence(), 6);
    assert_eq!(BinaryOperator::Lessequ.precedence(), 6);
    assert_eq!(BinaryOperator::ShiftL.precedence(), 7);
    assert_eq!(BinaryOperator::Sub.precedence(), 8);
    assert_eq!(BinaryOperator::Modulus.precedence(), 9);
}

#[test]
fn two_character_operators() {
    let parsed = |text: &str| match parse(text).unwrap().pop().unwrap() {
        Node::VarDecl(_, Expr::Binary(b)) => b.operator,
        other => panic!("unexpected {:?}", other),
    };
    assert_eq!(parsed("let a = 1 << 2"), BinaryOperator::ShiftL);
    assert_eq!(parsed("let a = 1 >> 2"), BinaryOperator::ShiftR);
    assert_eq!(parsed("let a = 1 <= 2"), BinaryOperator::Lessequ);
    assert_eq!(parsed("let a = 1 >= 2"), BinaryOperator::Grequ);
    assert_eq!(parsed("let a = 1 == 2"), BinaryOperator::Equals);
    assert_eq!(parsed("let a = 1 != 2"), BinaryOperator::NotEquals);
    assert_eq!(parsed("let a = 1 && 2"), BinaryOperator::And);
    assert_eq!(parsed("let a = 1 || 2"), BinaryOperator::Or);
    assert_eq!(parsed("let a = 1 & 2"), BinaryOperator::Band);
    assert_eq!(parsed("let a = 1 | 2"), BinaryOperator::Bor);
    assert_eq!(parsed("let a = 1 ^ 2"), BinaryOperator::Bxor);
}

#[test]
fn prefixes_and_parentheses() {
    let nodes = parse("let a = 1 let b = (a + 2) let c = &a let d = *c let e = !d").unwrap();
    assert_eq!(
        nodes[1],
        Node::VarDecl(1, binary(Expr::Variable(0), BinaryOperator::Add, Expr::Literal(2)))
    );
    assert_eq!(nodes[2], Node::VarDecl(2, Expr::Reference(Box::new(Expr::Variable(0)))));
    assert_eq!(nodes[3], Node::VarDecl(3, Expr::Dereference(Box::new(Expr::Variable(2)))));
    assert_eq!(
        nodes[4],
        Node::VarDecl(
            4,
            Expr::Unary(Unary { right: Box::new(Expr::Variable(3)), operator: UnaryOperator::Not })
        )
    );
}

#[test]
fn statements_with_bodies() {
    let nodes = parse("let a = 1 if a putchar a while a a = 0 return a").unwrap();
    assert_eq!(
        nodes,
        vec![
            Node::VarDecl(0, Expr::Literal(1)),
            Node::If(Expr::Variable(0), Box::new(Node::Putchar(Expr::Variable(0)))),
            Node::While(
                Expr::Variable(0),
                Box::new(Node::VarSet(0, Expr::Literal(0)))
            ),
            Node::Return(Expr::Variable(0)),
        ]
    );
}

#[test]
fn for_loop_scopes_its_variable() {
    let nodes = parse("for (i = 0; i < 3; i = i + 1) putchar i").unwrap();
    match &nodes[0] {
        Node::For(f) => {
            assert_eq!(f.var_name, "i");
            assert_eq!(f.start, Expr::Literal(0));
            assert_eq!(
                f.condition,
                binary(Expr::Variable(0), BinaryOperator::Less, Expr::Literal(3))
            );
            assert_eq!(*f.body, Node::Putchar(Expr::Variable(0)));
        }
        other => panic!("unexpected {:?}", other),
    }
    assert_eq!(
        message(parse("for (i = 0; i < 3; i = i + 1) putchar i putchar i")),
        "Variable 'i' does not exist"
    );
    assert_eq!(
        message(parse("for (i = 0 i < 3; i = i + 1) putchar i")),
        "ProcessorError: Expected 'Semicolon', peek=5 - "
    );
}

#[test]
fn methods_and_calls() {
    let nodes = parse("method f(a, b) return a + b let x = f(1, 2)").unwrap();
    match &nodes[0] {
        Node::MethodDecl(m) => {
            assert_eq!(m.name, "f");
            assert_eq!(m.id, 2);
            assert_eq!(m.parameters.len(), 2);
            assert_eq!(m.parameters[0].id, 0);
            assert_eq!(m.parameters[1].id, 1);
            assert_eq!(
                *m.body,
                Node::Return(binary(Expr::Variable(0), BinaryOperator::Add, Expr::Variable(1)))
            );
        }
        other => panic!("unexpected {:?}", other),
    }
    assert_eq!(
        nodes[1],
        Node::VarDecl(3, Expr::MethodCall(2, vec![Expr::Literal(1), Expr::Literal(2)]))
    );
    assert_eq!(message(parse("let x = g(1)")), "Method 'g' does not exist");
    assert_eq!(message(parse("method f(a) return a let x = f(1")), "Expected 'CloseParen' instead");
}

#[test]
fn parser_errors() {
    assert_eq!(message(parse("a = 1")), "Variable 'a' does not exists");
    assert_eq!(message(parse("let a = b")), "Variable 'b' does not exist");
    assert_eq!(message(parse("let 1 = 2")), "Unexpected 'Literal(1)', expected identifier instead");
    assert_eq!(message(parse("let a 1")), "ProcessorError: Expected 'Equals', peek=2 - ");
    assert_eq!(message(parse("let a = (1")), "ProcessorError: Expected 'CloseParen', peek=5 - ");
    assert_eq!(message(parse("let a = ;")), "Invalid Token 'Semicolon'");
    assert_eq!(message(parse("let a =")), "Invalid Token 'Invalid'");
    assert_eq!(message(parse(";")), "Unexpected 'Semicolon'");
    assert_eq!(message(parse("{ let a = 1")), "Expected 'CloseCurly' instead");
    let mut parser = Parser::new(vec![Token::Identifier("q".to_string())]);
    assert!(parser.parse_all().is_err());
}

#[test]
fn scope_restores_variables() {
    assert_eq!(message(parse("{ let a = 1 } a = 2")), "Variable 'a' does not exists");
    assert!(parse("{ let a = 1 } let a = 2").is_ok());
}
