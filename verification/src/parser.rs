//! The syntax tree and the recursive-descent parser.
use vstd::prelude::*;
use vstd::string::StringExecFns;
use crate::error::{DSAsmError, ErrorKind, Failure, failure, kind_name};
use crate::parser::identities::{declared_all, lemma_identities_distinct};
use crate::processor::{Processor, expected_message};
use crate::text::{push_quoted, quoted};
use crate::tokenizer::{Token, TokenView, token_at, token_text, token_views};

pub mod copying;
pub mod identities;
pub mod printing;

verus! {

/// A name bound to an identity.
#[derive(Debug, PartialEq, Eq)]
pub struct Variable {
    pub name: String,
    pub id: u64,
}

impl Clone for Variable {
    fn clone(&self) -> (r: Variable)
        ensures
            r == *self,
    {
        Variable { name: self.name.clone(), id: self.id }
    }
}

/// The mathematical content of a `Variable`.
pub struct VariableView {
    pub name: Seq<char>,
    pub id: u64,
}

impl View for Variable {
    type V = VariableView;

    open spec fn view(&self) -> VariableView {
        VariableView { name: self.name@, id: self.id }
    }
}

/// The operators between two operands.
#[derive(Debug, Clone, Copy, PartialEq, Eq, Structural)]
pub enum BinaryOperator {
    Add,
    Sub,
    Mult,
    Div,
    Modulus,
    Equals,
    NotEquals,
    Greater,
    Less,
    Grequ,
    Lessequ,
    ShiftR,
    ShiftL,
    Band,
    Bor,
    Bxor,
    And,
    Or,
}

/// The operators before one operand.
#[derive(Debug, Clone, Copy, PartialEq, Eq, Structural)]
pub enum UnaryOperator {
    Negate,
    Not,
    Bnot,
}

impl UnaryOperator {
    /// The character that the operator is written with.
    pub open spec fn symbol(&self) -> Seq<char> {
        match *self {
            UnaryOperator::Bnot => "~"@,
            UnaryOperator::Negate => "-"@,
            UnaryOperator::Not => "!"@,
        }
    }

    /// The operator as it is written.
    pub fn to_str(self) -> (s: &'static str)
        ensures
            s@ == self.symbol(),
    {
        match self {
            UnaryOperator::Bnot => "~",
            UnaryOperator::Negate => "-",
            UnaryOperator::Not => "!",
        }
    }
}

/// Two operands and the operator between them.
#[derive(Debug, PartialEq, Eq)]
pub struct Binary {
    pub left: Box<Expr>,
    pub right: Box<Expr>,
    pub operator: BinaryOperator,
}

/// An operand and the operator before it.
#[derive(Debug, PartialEq, Eq)]
pub struct Unary {
    pub right: Box<Expr>,
    pub operator: UnaryOperator,
}

/// An expression.
#[derive(Debug, PartialEq, Eq)]
pub enum Expr {
    Literal(u8),
    Variable(u64),
    UserInput,
    Reference(Box<Expr>),
    Dereference(Box<Expr>),
    MethodCall(u64, Vec<Expr>),
    Binary(Binary),
    Unary(Unary),
}

/// The mathematical content of an expression.
pub enum ExprView {
    Literal(u8),
    Variable(u64),
    UserInput,
    Reference(Box<ExprView>),
    Dereference(Box<ExprView>),
    MethodCall(u64, Seq<ExprView>),
    /// The left operand, the operator, the right operand.
    Binary(Box<ExprView>, BinaryOperator, Box<ExprView>),
    /// The operator and its operand.
    Unary(UnaryOperator, Box<ExprView>),
}

/// A `for` loop.
#[derive(Debug, PartialEq, Eq)]
pub struct ForLoop {
    pub var_name: String,
    pub start: Expr,
    pub condition: Expr,
    pub increment: Box<Node>,
    pub body: Box<Node>,
}

/// A method: its name, its identity, its parameters and its body.
#[derive(Debug, PartialEq, Eq)]
pub struct Method {
    pub name: String,
    pub id: u64,
    pub parameters: Vec<Variable>,
    pub body: Box<Node>,
}

/// A statement or a declaration.
#[derive(Debug, PartialEq, Eq)]
pub enum Node {
    Scope(Vec<Node>),
    VarDecl(u64, Expr),
    VarSet(u64, Expr),
    If(Expr, Box<Node>),
    While(Expr, Box<Node>),
    For(ForLoop),
    Putchar(Expr),
    MethodDecl(Method),
    Return(Expr),
    Invalid,
}

impl Default for Node {
    fn default() -> (n: Node)
        ensures
            n == Node::Invalid,
    {
        Node::Invalid
    }
}

/// The mathematical content of a statement or a declaration.
pub enum NodeView {
    Scope(Seq<NodeView>),
    VarDecl(u64, ExprView),
    VarSet(u64, ExprView),
    If(ExprView, Box<NodeView>),
    While(ExprView, Box<NodeView>),
    For {
        var_name: Seq<char>,
        start: ExprView,
        condition: ExprView,
        increment: Box<NodeView>,
        body: Box<NodeView>,
    },
    Putchar(ExprView),
    MethodDecl { name: Seq<char>, id: u64, parameters: Seq<VariableView>, body: Box<NodeView> },
    Return(ExprView),
    Invalid,
}

/// The mathematical content of an expression.
pub open spec fn expr_view(e: Expr) -> ExprView
    decreases e,
{
    match e {
        Expr::Literal(n) => ExprView::Literal(n),
        Expr::Variable(id) => ExprView::Variable(id),
        Expr::UserInput => ExprView::UserInput,
        Expr::Reference(inner) => ExprView::Reference(Box::new(expr_view(*inner))),
        Expr::Dereference(inner) => ExprView::Dereference(Box::new(expr_view(*inner))),
        Expr::MethodCall(id, args) => ExprView::MethodCall(
            id,
            Seq::new(
                args@.len(),
                |i: int|
                    if 0 <= i < args@.len() {
                        expr_view(args@[i])
                    } else {
                        ExprView::UserInput
                    },
            ),
        ),
        Expr::Binary(b) => ExprView::Binary(
            Box::new(expr_view(*b.left)),
            b.operator,
            Box::new(expr_view(*b.right)),
        ),
        Expr::Unary(u) => ExprView::Unary(u.operator, Box::new(expr_view(*u.right))),
    }
}

impl View for Expr {
    type V = ExprView;

    open spec fn view(&self) -> ExprView {
        expr_view(*self)
    }
}

/// The views of a sequence of variables.
pub open spec fn variable_views(vars: Seq<Variable>) -> Seq<VariableView> {
    vars.map_values(|v: Variable| v@)
}

/// The mathematical content of a statement or a declaration.
pub open spec fn node_view(n: Node) -> NodeView
    decreases n,
{
    match n {
        Node::Scope(nodes) => NodeView::Scope(
            Seq::new(
                nodes@.len(),
                |i: int|
                    if 0 <= i < nodes@.len() {
                        node_view(nodes@[i])
                    } else {
                        NodeView::Invalid
                    },
            ),
        ),
        Node::VarDecl(id, e) => NodeView::VarDecl(id, e@),
        Node::VarSet(id, e) => NodeView::VarSet(id, e@),
        Node::If(e, body) => NodeView::If(e@, Box::new(node_view(*body))),
        Node::While(e, body) => NodeView::While(e@, Box::new(node_view(*body))),
        Node::For(f) => NodeView::For {
            var_name: f.var_name@,
            start: f.start@,
            condition: f.condition@,
            increment: Box::new(node_view(*f.increment)),
            body: Box::new(node_view(*f.body)),
        },
        Node::Putchar(e) => NodeView::Putchar(e@),
        Node::MethodDecl(m) => NodeView::MethodDecl {
            name: m.name@,
            id: m.id,
            parameters: variable_views(m.parameters@),
            body: Box::new(node_view(*m.body)),
        },
        Node::Return(e) => NodeView::Return(e@),
        Node::Invalid => NodeView::Invalid,
    }
}

impl View for Node {
    type V = NodeView;

    open spec fn view(&self) -> NodeView {
        node_view(*self)
    }
}

/// The views of a sequence of expressions.
pub open spec fn expr_views(exprs: Seq<Expr>) -> Seq<ExprView> {
    exprs.map_values(|e: Expr| e@)
}

/// The views of a sequence of nodes.
pub open spec fn node_views(nodes: Seq<Node>) -> Seq<NodeView> {
    nodes.map_values(|n: Node| n@)
}

impl BinaryOperator {
    /// The characters that the operator is written with.
    pub open spec fn symbol(&self) -> Seq<char> {
        match *self {
            BinaryOperator::Add => "+"@,
            BinaryOperator::And => "&&"@,
            BinaryOperator::Band => "&"@,
            BinaryOperator::Bor => "|"@,
            BinaryOperator::Bxor => "^"@,
            BinaryOperator::Div => "/"@,
            BinaryOperator::Equals => "=="@,
            BinaryOperator::Greater => ">"@,
            BinaryOperator::Grequ => ">="@,
            BinaryOperator::Less => "<"@,
            BinaryOperator::Lessequ => "<="@,
            BinaryOperator::Modulus => "%"@,
            BinaryOperator::Mult => "*"@,
            BinaryOperator::NotEquals => "!="@,
            BinaryOperator::Or => "||"@,
            BinaryOperator::ShiftL => "<<"@,
            BinaryOperator::ShiftR => ">>"@,
            BinaryOperator::Sub => "-"@,
        }
    }

    /// The operator as it is written.
    pub fn to_str(self) -> (s: &'static str)
        ensures
            s@ == self.symbol(),
    {
        match self {
            BinaryOperator::Add => "+",
            BinaryOperator::And => "&&",
            BinaryOperator::Band => "&",
            BinaryOperator::Bor => "|",
            BinaryOperator::Bxor => "^",
            BinaryOperator::Div => "/",
            BinaryOperator::Equals => "==",
            BinaryOperator::Greater => ">",
            BinaryOperator::Grequ => ">=",
            BinaryOperator::Less => "<",
            BinaryOperator::Lessequ => "<=",
            BinaryOperator::Modulus => "%",
            BinaryOperator::Mult => "*",
            BinaryOperator::NotEquals => "!=",
            BinaryOperator::Or => "||",
            BinaryOperator::ShiftL => "<<",
            BinaryOperator::ShiftR => ">>",
            BinaryOperator::Sub => "-",
        }
    }

    /// How tightly the operator binds: a greater number binds tighter.
    pub open spec fn spec_precedence(&self) -> u64 {
        match *self {
            BinaryOperator::Or => 0,
            BinaryOperator::And => 1,
            BinaryOperator::Bor => 2,
            BinaryOperator::Bxor => 3,
            BinaryOperator::Band => 4,
            BinaryOperator::Equals | BinaryOperator::NotEquals => 5,
            BinaryOperator::Greater | BinaryOperator::Less | BinaryOperator::Grequ
            | BinaryOperator::Lessequ => 6,
            BinaryOperator::ShiftL | BinaryOperator::ShiftR => 7,
            BinaryOperator::Add | BinaryOperator::Sub => 8,
            BinaryOperator::Mult | BinaryOperator::Div | BinaryOperator::Modulus => 9,
        }
    }

    /// How tightly the operator binds: a greater number binds tighter.
    #[verifier::when_used_as_spec(spec_precedence)]
    pub fn precedence(&self) -> (p: u64)
        ensures
            p == self.spec_precedence(),
    {
        match *self {
            BinaryOperator::Or => 0,
            BinaryOperator::And => 1,
            BinaryOperator::Bor => 2,
            BinaryOperator::Bxor => 3,
            BinaryOperator::Band => 4,
            BinaryOperator::Equals | BinaryOperator::NotEquals => 5,
            BinaryOperator::Greater | BinaryOperator::Less | BinaryOperator::Grequ
            | BinaryOperator::Lessequ => 6,
            BinaryOperator::ShiftL | BinaryOperator::ShiftR => 7,
            BinaryOperator::Add | BinaryOperator::Sub => 8,
            BinaryOperator::Mult | BinaryOperator::Div | BinaryOperator::Modulus => 9,
        }
    }
}

/// What the parser knows besides its position: the variables in scope, the
/// methods declared so far (each as its name and identity), and the next
/// identity to hand out.
pub struct Env {
    pub vars: Seq<VariableView>,
    pub methods: Seq<VariableView>,
    pub next_id: nat,
}

impl Env {
    /// The environment with other variables in scope.
    pub open spec fn with_vars(self, vars: Seq<VariableView>) -> Env {
        Env { vars, ..self }
    }

    /// The environment after `name` has been bound to the next identity.
    pub open spec fn declare(self, name: Seq<char>) -> Env {
        Env {
            vars: self.vars.push(VariableView { name, id: self.next_id as u64 }),
            next_id: self.next_id + 1,
            ..self
        }
    }

    /// The environment after the method `name` has got the next identity.
    pub open spec fn declare_method(self, name: Seq<char>) -> Env {
        Env {
            methods: self.methods.push(VariableView { name, id: self.next_id as u64 }),
            next_id: self.next_id + 1,
            ..self
        }
    }
}

/// How many tokens are left from `pos` on; the measure by which parsing
/// ends.
pub open spec fn remaining(tokens: Seq<TokenView>, pos: int) -> nat {
    if 0 <= pos < tokens.len() {
        (tokens.len() - pos) as nat
    } else {
        0
    }
}

/// The identity of the first entry of `list` from `from` on that bears
/// `name`.
pub open spec fn lookup(list: Seq<VariableView>, name: Seq<char>, from: int) -> Option<u64>
    decreases
        (if from < list.len() {
            list.len() - from
        } else {
            0
        }),
{
    if from < 0 || from >= list.len() {
        None
    } else if list[from].name == name {
        Some(list[from].id)
    } else {
        lookup(list, name, from + 1)
    }
}

/// A failure of the parser.
pub open spec fn parser_failure(message: Seq<char>) -> Failure {
    failure(ErrorKind::Parser, message)
}

/// The failure for a token other than the `wanted` one at `pos`.
pub open spec fn missing(wanted: Token, pos: int) -> Failure {
    parser_failure(
        kind_name(ErrorKind::Processor) + ": "@ + expected_message(
            token_text(TokenView::Plain(wanted)),
            pos as nat,
        ),
    )
}

/// The failure for a sequence that ends before its closing token.
pub open spec fn unclosed(closing: Token) -> Failure {
    parser_failure("Expected "@ + quoted(token_text(TokenView::Plain(closing))) + " instead"@)
}

/// The failure for a name that nothing bears.
pub open spec fn unknown(what: Seq<char>, name: Seq<char>, ending: Seq<char>) -> Failure {
    parser_failure(what + quoted(name) + ending)
}

/// The failure for a token where a name must stand.
pub open spec fn identifier_expected(found: TokenView) -> Failure {
    parser_failure("Unexpected "@ + quoted(token_text(found)) + ", expected identifier instead"@)
}

/// The binary operator at `pos`, if any, and the number of tokens it is
/// written with.
#[verifier::opaque]
pub open spec fn parse_operator(tokens: Seq<TokenView>, pos: int) -> Option<(BinaryOperator, nat)> {
    let next = token_at(tokens, pos + 1);
    match token_at(tokens, pos) {
        TokenView::Plain(Token::Plus) => Some((BinaryOperator::Add, 1)),
        TokenView::Plain(Token::Minus) => Some((BinaryOperator::Sub, 1)),
        TokenView::Plain(Token::Star) => Some((BinaryOperator::Mult, 1)),
        TokenView::Plain(Token::Slash) => Some((BinaryOperator::Div, 1)),
        TokenView::Plain(Token::Percent) => Some((BinaryOperator::Modulus, 1)),
        TokenView::Plain(Token::LeftAngle) => if next == TokenView::Plain(Token::LeftAngle) {
            Some((BinaryOperator::ShiftL, 2))
        } else if next == TokenView::Plain(Token::Equals) {
            Some((BinaryOperator::Lessequ, 2))
        } else {
            Some((BinaryOperator::Less, 1))
        },
        TokenView::Plain(Token::RightAngle) => if next == TokenView::Plain(Token::RightAngle) {
            Some((BinaryOperator::ShiftR, 2))
        } else if next == TokenView::Plain(Token::Equals) {
            Some((BinaryOperator::Grequ, 2))
        } else {
            Some((BinaryOperator::Greater, 1))
        },
        TokenView::Plain(Token::Equals) => if next == TokenView::Plain(Token::Equals) {
            Some((BinaryOperator::Equals, 2))
        } else {
            None
        },
        TokenView::Plain(Token::Exclamation) => if next == TokenView::Plain(Token::Equals) {
            Some((BinaryOperator::NotEquals, 2))
        } else {
            None
        },
        TokenView::Plain(Token::Ampersand) => if next == TokenView::Plain(Token::Ampersand) {
            Some((BinaryOperator::And, 2))
        } else {
            Some((BinaryOperator::Band, 1))
        },
        TokenView::Plain(Token::Pipe) => if next == TokenView::Plain(Token::Pipe) {
            Some((BinaryOperator::Or, 2))
        } else {
            Some((BinaryOperator::Bor, 1))
        },
        TokenView::Plain(Token::Caret) => Some((BinaryOperator::Bxor, 1)),
        _ => None,
    }
}

/// The tree of `left operator right`, where `right` has been parsed as a
/// whole: when `right` is itself of the form `a inner b` and `operator`
/// binds strictly tighter than `inner`, the tree is `(left operator a) inner
/// b`; else it is `left operator right`.
pub open spec fn combine(left: ExprView, operator: BinaryOperator, right: ExprView) -> ExprView {
    match right {
        ExprView::Binary(a, inner, b) => if operator.spec_precedence() > inner.spec_precedence() {
            ExprView::Binary(
                Box::new(ExprView::Binary(Box::new(left), operator, a)),
                inner,
                b,
            )
        } else {
            ExprView::Binary(Box::new(left), operator, Box::new(right))
        },
        _ => ExprView::Binary(Box::new(left), operator, Box::new(right)),
    }
}

/// Precedence decides which of two operators in a row is applied first: in
/// `left a middle b right`, the operator `a` becomes an operand of `b`, and
/// so lies deeper in the tree than `b`, exactly when `a` binds strictly
/// tighter than `b`; else `b` lies deeper than `a`.
pub proof fn lemma_precedence_decides(
    left: ExprView,
    a: BinaryOperator,
    middle: ExprView,
    b: BinaryOperator,
    right: ExprView,
)
    ensures
        a.spec_precedence() > b.spec_precedence() ==> combine(
            left,
            a,
            ExprView::Binary(Box::new(middle), b, Box::new(right)),
        ) == ExprView::Binary(
            Box::new(ExprView::Binary(Box::new(left), a, Box::new(middle))),
            b,
            Box::new(right),
        ),
        a.spec_precedence() <= b.spec_precedence() ==> combine(
            left,
            a,
            ExprView::Binary(Box::new(middle), b, Box::new(right)),
        ) == ExprView::Binary(
            Box::new(left),
            a,
            Box::new(ExprView::Binary(Box::new(middle), b, Box::new(right))),
        ),
{
}

/// The failure for a token that starts no operand.
pub open spec fn invalid_token(found: TokenView) -> Failure {
    parser_failure("Invalid Token "@ + quoted(token_text(found)))
}

/// A parsed expression and the number of tokens read after the first.
pub type ParsedExpr = Result<(ExprView, nat), Failure>;

/// A parsed list of arguments and the number of tokens read after the
/// first.
pub type ParsedArgs = Result<(Seq<ExprView>, nat), Failure>;

/// What may stand before an operand.
#[derive(Debug, Clone, Copy, PartialEq, Eq, Structural)]
pub enum Prefix {
    /// `&`
    Reference,
    /// `*`
    Dereference,
    /// `-`
    Negate,
    /// `!`
    Not,
    /// `~`
    Bnot,
    /// `(`, which the expression's own closing parenthesis answers.
    Group,
}

/// The prefix that a token stands for, if any.
pub open spec fn prefix_of(t: TokenView) -> Option<Prefix> {
    match t {
        TokenView::Plain(Token::Ampersand) => Some(Prefix::Reference),
        TokenView::Plain(Token::Star) => Some(Prefix::Dereference),
        TokenView::Plain(Token::Minus) => Some(Prefix::Negate),
        TokenView::Plain(Token::Exclamation) => Some(Prefix::Not),
        TokenView::Plain(Token::Tilde) => Some(Prefix::Bnot),
        TokenView::Plain(Token::OpenParen) => Some(Prefix::Group),
        _ => None,
    }
}

/// The expression made of a prefix and its operand.
pub open spec fn prefixed(prefix: Prefix, operand: ExprView) -> ExprView {
    match prefix {
        Prefix::Reference => ExprView::Reference(Box::new(operand)),
        Prefix::Dereference => ExprView::Dereference(Box::new(operand)),
        Prefix::Negate => ExprView::Unary(UnaryOperator::Negate, Box::new(operand)),
        Prefix::Not => ExprView::Unary(UnaryOperator::Not, Box::new(operand)),
        Prefix::Bnot => ExprView::Unary(UnaryOperator::Bnot, Box::new(operand)),
        Prefix::Group => operand,
    }
}

/// The operand that starts at `pos`: a literal, a variable, a call, an
/// input, a prefixed operand or an expression in parentheses.
pub open spec fn parse_primary(
    tokens: Seq<TokenView>,
    pos: int,
    vars: Seq<VariableView>,
    methods: Seq<VariableView>,
    paren: bool,
) -> ParsedExpr
    decreases remaining(tokens, pos), 0nat,
{
    match token_at(tokens, pos) {
        TokenView::Plain(Token::Literal(val)) => Ok((ExprView::Literal(val), 0)),
        TokenView::Identifier(name) => if token_at(tokens, pos + 1) == TokenView::Plain(
            Token::OpenParen,
        ) {
            match lookup(methods, name, 0) {
                None => Err(unknown("Method "@, name, " does not exist"@)),
                Some(id) => match parse_args(tokens, pos + 2, vars, methods, Seq::empty()) {
                    Err(e) => Err(e),
                    Ok((args, more)) => Ok((ExprView::MethodCall(id, args), 2 + more)),
                },
            }
        } else {
            match lookup(vars, name, 0) {
                Some(id) => Ok((ExprView::Variable(id), 0)),
                None => Err(unknown("Variable "@, name, " does not exist"@)),
            }
        },
        TokenView::Plain(Token::Getchar) => Ok((ExprView::UserInput, 0)),
        found => match prefix_of(found) {
            Some(prefix) => match parse_expr(
                tokens,
                pos + 1,
                vars,
                methods,
                paren || prefix == Prefix::Group,
            ) {
                Err(e) => Err(e),
                Ok((operand, more)) => Ok((prefixed(prefix, operand), 1 + more)),
            },
            None => Err(invalid_token(found)),
        },
    }
}

/// The expression that starts at `pos`: an operand, then perhaps a binary
/// operator and the expression to its right, then, when `paren` holds, a
/// closing parenthesis.
pub open spec fn parse_expr(
    tokens: Seq<TokenView>,
    pos: int,
    vars: Seq<VariableView>,
    methods: Seq<VariableView>,
    paren: bool,
) -> ParsedExpr
    decreases remaining(tokens, pos), 1nat,
{
    if pos < 0 || pos >= tokens.len() {
        Err(invalid_token(token_at(tokens, pos)))
    } else {
        match parse_primary(tokens, pos, vars, methods, paren) {
            Err(e) => Err(e),
            Ok((left, first)) => {
                let whole: ParsedExpr = match parse_operator(tokens, pos + 1 + first) {
                    None => Ok((left, first)),
                    Some((operator, width)) => match parse_expr(
                        tokens,
                        pos + 1 + first + width,
                        vars,
                        methods,
                        false,
                    ) {
                        Err(e) => Err(e),
                        Ok((right, second)) => Ok(
                            (combine(left, operator, right), first + width + 1 + second),
                        ),
                    },
                };
                match whole {
                    Err(e) => Err(e),
                    Ok((value, more)) => if !paren {
                        Ok((value, more))
                    } else if token_at(tokens, pos + 1 + more) == TokenView::Plain(
                        Token::CloseParen,
                    ) {
                        Ok((value, more + 1))
                    } else {
                        Err(missing(Token::CloseParen, pos + 1 + more))
                    },
                }
            },
        }
    }
}

/// The arguments of a call from `pos` on, up to the closing parenthesis,
/// after the arguments `done`, which have been read already: a comma comes
/// first unless `done` is empty. The result holds all the arguments and the
/// number of tokens read from `pos` on, less one.
pub open spec fn parse_args(
    tokens: Seq<TokenView>,
    pos: int,
    vars: Seq<VariableView>,
    methods: Seq<VariableView>,
    done: Seq<ExprView>,
) -> ParsedArgs
    decreases remaining(tokens, pos), 2nat,
{
    if pos < 0 || pos >= tokens.len() {
        Err(unclosed(Token::CloseParen))
    } else if tokens[pos] == TokenView::Plain(Token::CloseParen) {
        Ok((done, 0))
    } else if done.len() > 0 && tokens[pos] != TokenView::Plain(Token::Comma) {
        Err(missing(Token::Comma, pos))
    } else {
        let comma: nat = if done.len() > 0 {
            1
        } else {
            0
        };
        match parse_expr(tokens, pos + comma, vars, methods, false) {
            Err(e) => Err(e),
            Ok((arg, more)) => later(
                parse_args(tokens, pos + comma + 1 + more, vars, methods, done.push(arg)),
                comma + more + 1,
            ),
        }
    }
}

/// A result whose count of tokens starts `offset` tokens earlier.
pub open spec fn later<T>(r: Result<(T, nat), Failure>, offset: nat) -> Result<(T, nat), Failure> {
    match r {
        Err(e) => Err(e),
        Ok((value, more)) => Ok((value, offset + more)),
    }
}

/// A parsed part of a program: its tree, the number of tokens read after
/// the first, and the environment after it.
pub struct Parsed<T> {
    pub value: T,
    pub more: nat,
    pub env: Env,
}

/// A parsed part whose count of tokens starts `offset` tokens earlier.
pub open spec fn after<T>(r: Result<Parsed<T>, Failure>, offset: nat) -> Result<Parsed<T>, Failure> {
    match r {
        Err(e) => Err(e),
        Ok(p) => Ok(Parsed { more: offset + p.more, ..p }),
    }
}

/// The failure for a token that starts no statement.
pub open spec fn unexpected(found: TokenView) -> Failure {
    parser_failure("Unexpected "@ + quoted(token_text(found)))
}

/// Whether the token at `pos` is the plain token `t`.
pub open spec fn is_at(tokens: Seq<TokenView>, pos: int, t: Token) -> bool {
    token_at(tokens, pos) == TokenView::Plain(t)
}

/// The expression that starts at `pos`, without a closing parenthesis of
/// its own.
#[verifier::opaque]
pub open spec fn parse_value(tokens: Seq<TokenView>, pos: int, env: Env) -> ParsedExpr {
    parse_expr(tokens, pos, env.vars, env.methods, false)
}

/// The statement made of a keyword and an expression.
pub open spec fn keyword_statement(
    tokens: Seq<TokenView>,
    pos: int,
    env: Env,
    make: spec_fn(ExprView) -> NodeView,
) -> Result<Parsed<NodeView>, Failure> {
    match parse_value(tokens, pos + 1, env) {
        Err(e) => Err(e),
        Ok((e, more)) => Ok(Parsed { value: make(e), more: 1 + more, env }),
    }
}

/// The statement that starts at `pos`.
pub open spec fn parse_node(tokens: Seq<TokenView>, pos: int, env: Env) -> Result<
    Parsed<NodeView>,
    Failure,
>
    decreases remaining(tokens, pos), 3nat,
{
    match token_at(tokens, pos) {
        TokenView::Plain(Token::OpenCurly) => match parse_items(
            tokens,
            pos + 1,
            env,
            Seq::empty(),
        ) {
            Err(e) => Err(e),
            Ok(items) => Ok(
                Parsed {
                    value: NodeView::Scope(items.value),
                    more: 1 + items.more,
                    env: items.env.with_vars(env.vars),
                },
            ),
        },
        TokenView::Plain(Token::Let) => match token_at(tokens, pos + 1) {
            TokenView::Identifier(name) => if lookup(env.vars, name, 0) is Some {
                Err(unknown("Variable "@, name, " already exists"@))
            } else if !is_at(tokens, pos + 2, Token::Equals) {
                Err(missing(Token::Equals, pos + 2))
            } else {
                match parse_value(tokens, pos + 3, env.declare(name)) {
                    Err(e) => Err(e),
                    Ok((e, more)) => Ok(
                        Parsed {
                            value: NodeView::VarDecl(env.next_id as u64, e),
                            more: 3 + more,
                            env: env.declare(name),
                        },
                    ),
                }
            },
            found => Err(identifier_expected(found)),
        },
        TokenView::Identifier(name) => match lookup(env.vars, name, 0) {
            None => Err(unknown("Variable "@, name, " does not exists"@)),
            Some(id) => if !is_at(tokens, pos + 1, Token::Equals) {
                Err(missing(Token::Equals, pos + 1))
            } else {
                match parse_value(tokens, pos + 2, env) {
                    Err(e) => Err(e),
                    Ok((e, more)) => Ok(
                        Parsed { value: NodeView::VarSet(id, e), more: 2 + more, env },
                    ),
                }
            },
        },
        TokenView::Plain(Token::For) => if !is_at(tokens, pos + 1, Token::OpenParen) {
            Err(missing(Token::OpenParen, pos + 1))
        } else {
            match token_at(tokens, pos + 2) {
                TokenView::Identifier(name) => if !is_at(tokens, pos + 3, Token::Equals) {
                    Err(missing(Token::Equals, pos + 3))
                } else {
                    parse_for(tokens, pos, env, name)
                },
                found => Err(identifier_expected(found)),
            }
        },
        TokenView::Plain(Token::If) => match parse_value(tokens, pos + 1, env) {
            Err(e) => Err(e),
            Ok((condition, more)) => match parse_node(tokens, pos + 2 + more, env) {
                Err(e) => Err(e),
                Ok(body) => Ok(
                    Parsed {
                        value: NodeView::If(condition, Box::new(body.value)),
                        more: 2 + more + body.more,
                        env: body.env,
                    },
                ),
            },
        },
        TokenView::Plain(Token::While) => match parse_value(tokens, pos + 1, env) {
            Err(e) => Err(e),
            Ok((condition, more)) => match parse_node(tokens, pos + 2 + more, env) {
                Err(e) => Err(e),
                Ok(body) => Ok(
                    Parsed {
                        value: NodeView::While(condition, Box::new(body.value)),
                        more: 2 + more + body.more,
                        env: body.env,
                    },
                ),
            },
        },
        TokenView::Plain(Token::Putchar) => keyword_statement(
            tokens,
            pos,
            env,
            |e: ExprView| NodeView::Putchar(e),
        ),
        TokenView::Plain(Token::Return) => keyword_statement(
            tokens,
            pos,
            env,
            |e: ExprView| NodeView::Return(e),
        ),
        found => Err(unexpected(found)),
    }
}

/// The `for` loop that starts at `pos` with `for ( name =`: the start value,
/// a semicolon, the condition, a semicolon, the increment, a closing
/// parenthesis and the body. The loop variable is in scope for all of them
/// and for nothing after.
pub open spec fn parse_for(tokens: Seq<TokenView>, pos: int, env: Env, name: Seq<char>) -> Result<
    Parsed<NodeView>,
    Failure,
>
    decreases remaining(tokens, pos), 2nat,
{
    let inner = env.declare(name);
    if pos < 0 || pos >= tokens.len() {
        Err(unexpected(token_at(tokens, pos)))
    } else {
        match parse_value(tokens, pos + 4, inner) {
            Err(e) => Err(e),
            Ok((start, first)) => if !is_at(tokens, pos + 5 + first, Token::Semicolon) {
                Err(missing(Token::Semicolon, pos + 5 + first))
            } else {
                match parse_value(tokens, pos + 6 + first, inner) {
                    Err(e) => Err(e),
                    Ok((condition, second)) => if !is_at(
                        tokens,
                        pos + 7 + first + second,
                        Token::Semicolon,
                    ) {
                        Err(missing(Token::Semicolon, pos + 7 + first + second))
                    } else {
                        match parse_node(tokens, pos + 8 + first + second, inner) {
                            Err(e) => Err(e),
                            Ok(increment) => {
                                let close = pos + 9 + first + second + increment.more;
                                if !is_at(tokens, close, Token::CloseParen) {
                                    Err(missing(Token::CloseParen, close))
                                } else {
                                    match parse_node(tokens, close + 1, increment.env) {
                                        Err(e) => Err(e),
                                        Ok(body) => Ok(
                                            Parsed {
                                                value: NodeView::For {
                                                    var_name: name,
                                                    start,
                                                    condition,
                                                    increment: Box::new(increment.value),
                                                    body: Box::new(body.value),
                                                },
                                                more: 10 + first + second + increment.more
                                                    + body.more,
                                                env: body.env.with_vars(env.vars),
                                            },
                                        ),
                                    }
                                }
                            },
                        }
                    },
                }
            },
        }
    }
}

/// The statements of a scope from `pos` on, up to the closing brace, after
/// the statements `done`. The result holds all the statements and the
/// number of tokens read from `pos` on, less one.
pub open spec fn parse_items(tokens: Seq<TokenView>, pos: int, env: Env, done: Seq<NodeView>)
    -> Result<Parsed<Seq<NodeView>>, Failure>
    decreases remaining(tokens, pos), 4nat,
{
    if pos < 0 || pos >= tokens.len() {
        Err(unclosed(Token::CloseCurly))
    } else if tokens[pos] == TokenView::Plain(Token::CloseCurly) {
        Ok(Parsed { value: done, more: 0, env })
    } else {
        match parse_node(tokens, pos, env) {
            Err(e) => Err(e),
            Ok(item) => after(
                parse_items(tokens, pos + 1 + item.more, item.env, done.push(item.value)),
                1 + item.more,
            ),
        }
    }
}

/// The parameters of a method from `pos` on, up to the closing parenthesis,
/// after the parameters `done`: a comma comes first unless `done` is empty.
/// Each parameter gets the next identity and comes into scope.
pub open spec fn parse_params(
    tokens: Seq<TokenView>,
    pos: int,
    env: Env,
    done: Seq<VariableView>,
) -> Result<Parsed<Seq<VariableView>>, Failure>
    decreases remaining(tokens, pos),
{
    if pos < 0 || pos >= tokens.len() {
        Err(unclosed(Token::CloseParen))
    } else if tokens[pos] == TokenView::Plain(Token::CloseParen) {
        Ok(Parsed { value: done, more: 0, env })
    } else if done.len() > 0 && tokens[pos] != TokenView::Plain(Token::Comma) {
        Err(missing(Token::Comma, pos))
    } else {
        let comma: nat = if done.len() > 0 {
            1
        } else {
            0
        };
        match token_at(tokens, pos + comma) {
            TokenView::Identifier(name) => after(
                parse_params(
                    tokens,
                    pos + comma + 1,
                    env.declare(name),
                    done.push(VariableView { name, id: env.next_id as u64 }),
                ),
                comma + 1,
            ),
            found => Err(identifier_expected(found)),
        }
    }
}

/// The method that starts at `pos` with `method`: its name, its
/// parameters in parentheses and its body. The parameters are in scope for
/// the body only; the method gets its identity after its body.
#[verifier::opaque]
pub open spec fn parse_method(tokens: Seq<TokenView>, pos: int, env: Env) -> Result<
    Parsed<NodeView>,
    Failure,
> {
    match token_at(tokens, pos + 1) {
        TokenView::Identifier(name) => if !is_at(tokens, pos + 2, Token::OpenParen) {
            Err(missing(Token::OpenParen, pos + 2))
        } else {
            match parse_params(tokens, pos + 3, env, Seq::empty()) {
                Err(e) => Err(e),
                Ok(parameters) => match parse_node(
                    tokens,
                    pos + 4 + parameters.more,
                    parameters.env,
                ) {
                    Err(e) => Err(e),
                    Ok(body) => Ok(
                        Parsed {
                            value: NodeView::MethodDecl {
                                name,
                                id: body.env.next_id as u64,
                                parameters: parameters.value,
                                body: Box::new(body.value),
                            },
                            more: 4 + parameters.more + body.more,
                            env: body.env.with_vars(env.vars).declare_method(name),
                        },
                    ),
                },
            }
        },
        found => Err(identifier_expected(found)),
    }
}

/// The method or the statement that starts at `pos`, which lies inside
/// `tokens`.
#[verifier::opaque]
pub open spec fn parse_top(tokens: Seq<TokenView>, pos: int, env: Env) -> Result<
    Parsed<NodeView>,
    Failure,
> {
    if tokens[pos] == TokenView::Plain(Token::Method) {
        parse_method(tokens, pos, env)
    } else {
        parse_node(tokens, pos, env)
    }
}

/// The declarations and statements of a program from `pos` on, after the
/// nodes `done`. The number in the result counts the tokens read.
pub open spec fn parse_program(tokens: Seq<TokenView>, pos: int, env: Env, done: Seq<NodeView>)
    -> Result<Parsed<Seq<NodeView>>, Failure>
    decreases remaining(tokens, pos),
{
    if pos < 0 || pos >= tokens.len() {
        Ok(Parsed { value: done, more: 0, env })
    } else {
        match parse_top(tokens, pos, env) {
            Err(e) => Err(e),
            Ok(node) => after(
                parse_program(tokens, pos + 1 + node.more, node.env, done.push(node.value)),
                1 + node.more,
            ),
        }
    }
}

/// The view of a call is the call of the views.
pub proof fn lemma_call_view(id: u64, args: Vec<Expr>)
    ensures
        Expr::MethodCall(id, args)@ == ExprView::MethodCall(id, expr_views(args@)),
{
    let e = Expr::MethodCall(id, args);
    assert(e@->MethodCall_1 =~= expr_views(args@));
}

/// The view of a scope is the scope of the views.
pub proof fn lemma_scope_view(nodes: Vec<Node>)
    ensures
        Node::Scope(nodes)@ == NodeView::Scope(node_views(nodes@)),
{
    let n = Node::Scope(nodes);
    assert(n@->Scope_0 =~= node_views(nodes@));
}

/// The recursive-descent parser: a cursor over tokens, the variables in
/// scope, the methods declared so far and the next identity to hand out.
pub struct Parser {
    base: Processor<Token>,
    vars: Vec<Variable>,
    methods: Vec<Variable>,
    next_id: u64,
}

fn find(list: &Vec<Variable>, name: &String) -> (r: Option<u64>)
    ensures
        r == lookup(variable_views(list@), name@, 0),
{
    let mut i: usize = 0;
    while i < list.len()
        invariant
            i <= list.len(),
            lookup(variable_views(list@), name@, 0) == lookup(
                variable_views(list@),
                name@,
                i as int,
            ),
        decreases list.len() - i,
    {
        if list[i].name == *name {
            return Some(list[i].id);
        }
        i += 1;
    }
    None
}

pub(crate) fn copy_variables(list: &Vec<Variable>) -> (r: Vec<Variable>)
    ensures
        variable_views(r@) == variable_views(list@),
{
    let mut out: Vec<Variable> = Vec::new();
    let mut i: usize = 0;
    while i < list.len()
        invariant
            i <= list.len(),
            variable_views(out@) == variable_views(list@).subrange(0, i as int),
        decreases list.len() - i,
    {
        let ghost before = variable_views(out@);
        let v = Variable { name: list[i].name.clone(), id: list[i].id };
        out.push(v);
        assert(variable_views(out@) =~= before.push(v@));
        assert(before.push(v@) =~= variable_views(list@).subrange(0, i + 1));
        i += 1;
    }
    assert(variable_views(list@).subrange(0, list.len() as int) =~= variable_views(list@));
    out
}

fn named_error(what: &str, name: &String, ending: &str) -> (e: DSAsmError)
    ensures
        e@ == unknown(what@, name@, ending@),
{
    let mut message = String::from_str(what);
    push_quoted(&mut message, name.as_str());
    message.append(ending);
    DSAsmError::ParserError(message)
}

fn token_error(start: &str, found: &Token, ending: &str) -> (e: DSAsmError)
    ensures
        e@ == parser_failure(start@ + quoted(token_text(found@)) + ending@),
{
    let mut message = String::from_str(start);
    push_quoted(&mut message, found.to_string().as_str());
    message.append(ending);
    DSAsmError::ParserError(message)
}

fn unclosed_error(closing: Token) -> (e: DSAsmError)
    requires
        closing@ == TokenView::Plain(closing),
    ensures
        e@ == unclosed(closing),
{
    token_error("Expected ", &closing, " instead")
}

fn prefix(t: &Token) -> (r: Option<Prefix>)
    ensures
        r == prefix_of(t@),
{
    match t {
        Token::Ampersand => Some(Prefix::Reference),
        Token::Star => Some(Prefix::Dereference),
        Token::Minus => Some(Prefix::Negate),
        Token::Exclamation => Some(Prefix::Not),
        Token::Tilde => Some(Prefix::Bnot),
        Token::OpenParen => Some(Prefix::Group),
        _ => None,
    }
}

fn with_prefix(prefix: Prefix, operand: Expr) -> (r: Expr)
    ensures
        r@ == prefixed(prefix, operand@),
{
    match prefix {
        Prefix::Reference => Expr::Reference(Box::new(operand)),
        Prefix::Dereference => Expr::Dereference(Box::new(operand)),
        Prefix::Negate => Expr::Unary(
            Unary { right: Box::new(operand), operator: UnaryOperator::Negate },
        ),
        Prefix::Not => Expr::Unary(Unary { right: Box::new(operand), operator: UnaryOperator::Not }),
        Prefix::Bnot => Expr::Unary(
            Unary { right: Box::new(operand), operator: UnaryOperator::Bnot },
        ),
        Prefix::Group => operand,
    }
}

/// The tree of `left operator right`, rotated when the operator binds
/// tighter than the one at the root of `right`.
fn combined(left: Expr, operator: BinaryOperator, right: Expr) -> (r: Expr)
    ensures
        r@ == combine(left@, operator, right@),
{
    reveal_with_fuel(expr_view, 3);
    match right {
        Expr::Binary(bin) => {
            if operator.precedence() > bin.operator.precedence() {
                let tmp = Expr::Binary(Binary { left: Box::new(left), right: bin.left, operator });
                Expr::Binary(Binary { left: Box::new(tmp), right: bin.right, operator: bin.operator })
            } else {
                Expr::Binary(
                    Binary { left: Box::new(left), right: Box::new(Expr::Binary(bin)), operator },
                )
            }
        },
        other => Expr::Binary(Binary { left: Box::new(left), right: Box::new(other), operator }),
    }
}

impl Parser {
    /// The tokens to parse.
    pub closed spec fn tokens(&self) -> Seq<TokenView> {
        token_views(self.base.items())
    }

    /// The position of the next token to read.
    pub closed spec fn position(&self) -> nat {
        self.base.position()
    }

    /// The variables in scope, the methods declared and the next identity.
    pub closed spec fn env(&self) -> Env {
        Env {
            vars: variable_views(self.vars@),
            methods: variable_views(self.methods@),
            next_id: self.next_id as nat,
        }
    }

    /// No more identities have been handed out than tokens have been read,
    /// and the position is not past the end.
    pub closed spec fn wf(&self) -> bool {
        &&& self.next_id <= self.base.position()
        &&& self.base.position() <= self.base.items().len()
    }

    /// `self` is what `before` becomes by reading an expression that ends
    /// as `r` and that `model` prescribes.
    pub open spec fn parsed_expr(
        &self,
        before: &Parser,
        r: Result<Expr, DSAsmError>,
        model: ParsedExpr,
    ) -> bool {
        &&& self.tokens() == before.tokens()
        &&& self.env() == before.env()
        &&& match r {
            Ok(e) => {
                &&& self.wf()
                &&& self.position() > before.position()
                &&& model == Ok::<(ExprView, nat), Failure>(
                    (e@, (self.position() - before.position() - 1) as nat),
                )
            },
            Err(x) => model == Err::<(ExprView, nat), Failure>(x@),
        }
    }

    /// `self` is `before` one token further.
    pub open spec fn follows(&self, before: &Parser) -> bool {
        &&& before.wf()
        &&& self.wf()
        &&& before.position() < before.tokens().len()
        &&& self.tokens() == before.tokens()
        &&& self.position() == before.position() + 1
        &&& self.env() == before.env()
    }

    /// `self` is `before` after the plain token `t` has been read.
    pub open spec fn follows_token(&self, before: &Parser, t: Token) -> bool {
        &&& self.follows(before)
        &&& token_at(before.tokens(), before.position() as int) == TokenView::Plain(t)
    }

    /// `self` is what `before` becomes by reading a statement that ends as
    /// `r` and that `model` prescribes.
    pub open spec fn parsed_node(
        &self,
        before: &Parser,
        r: Result<Node, DSAsmError>,
        model: Result<Parsed<NodeView>, Failure>,
    ) -> bool {
        &&& self.tokens() == before.tokens()
        &&& match r {
            Ok(n) => {
                &&& self.wf()
                &&& self.position() > before.position()
                &&& self.env().next_id - before.env().next_id <= self.position()
                    - before.position()
                &&& model == Ok::<Parsed<NodeView>, Failure>(
                    Parsed {
                        value: n@,
                        more: (self.position() - before.position() - 1) as nat,
                        env: self.env(),
                    },
                )
            },
            Err(x) => model == Err::<Parsed<NodeView>, Failure>(x@),
        }
    }

    /// A parser at the first of the tokens `input`, with nothing in scope
    /// and no identity handed out.
    pub fn new(input: Vec<Token>) -> (p: Parser)
        ensures
            p.wf(),
            p.tokens() == token_views(input@),
            p.position() == 0,
            p.env() == (Env { vars: Seq::empty(), methods: Seq::empty(), next_id: 0 }),
    {
        let p = Parser { base: Processor::new(input), vars: Vec::new(), methods: Vec::new(), next_id: 0 };
        assert(p.env().vars =~= Seq::empty());
        assert(p.env().methods =~= Seq::empty());
        p
    }

    /// Hands out the next identity.
    fn generate_id(&mut self) -> (id: u64)
        requires
            old(self).next_id < old(self).base.position(),
        ensures
            id == old(self).next_id,
            final(self).next_id == old(self).next_id + 1,
            final(self).base == old(self).base,
            final(self).vars == old(self).vars,
            final(self).methods == old(self).methods,
    {
        proof {
            self.base.lemma_bounded();
        }
        let id = self.next_id;
        self.next_id = self.next_id + 1;
        id
    }

    /// Reads the token `wanted`.
    fn expect(&mut self, wanted: Token) -> (r: Result<(), DSAsmError>)
        requires
            old(self).wf(),
            wanted@ == TokenView::Plain(wanted),
            wanted != Token::Invalid,
        ensures
            final(self).tokens() == old(self).tokens(),
            final(self).env() == old(self).env(),
            match r {
                Ok(_) => {
                    &&& is_at(old(self).tokens(), old(self).position() as int, wanted)
                    &&& final(self).wf()
                    &&& final(self).position() == old(self).position() + 1
                },
                Err(e) => !is_at(old(self).tokens(), old(self).position() as int, wanted) && e@
                    == missing(wanted, old(self).position() as int),
            },
    {
        match self.base.require(wanted) {
            Ok(_) => Ok(()),
            Err(e) => Err(DSAsmError::ParserError(e.to_string())),
        }
    }

    /// Reads a name.
    fn name(&mut self) -> (r: Result<String, DSAsmError>)
        requires
            old(self).wf(),
        ensures
            final(self).tokens() == old(self).tokens(),
            final(self).env() == old(self).env(),
            match r {
                Ok(name) => {
                    &&& token_at(old(self).tokens(), old(self).position() as int)
                        == TokenView::Identifier(name@)
                    &&& final(self).wf()
                    &&& final(self).position() == old(self).position() + 1
                },
                Err(e) => !(token_at(old(self).tokens(), old(self).position() as int)
                    is Identifier) && e@ == identifier_expected(
                    token_at(old(self).tokens(), old(self).position() as int),
                ),
            },
    {
        match self.base.consume() {
            Token::Identifier(s) => Ok(s),
            t => Err(token_error("Unexpected ", &t, ", expected identifier instead")),
        }
    }

    /// Reads a binary operator, if one stands at the cursor.
    fn parse_operator(&mut self) -> (r: Option<BinaryOperator>)
        requires
            old(self).wf(),
        ensures
            final(self).wf(),
            final(self).tokens() == old(self).tokens(),
            final(self).env() == old(self).env(),
            match r {
                Some(operator) => parse_operator(old(self).tokens(), old(self).position() as int)
                    == Some((operator, (final(self).position() - old(self).position()) as nat))
                    && final(self).position() > old(self).position(),
                None => parse_operator(old(self).tokens(), old(self).position() as int) is None
                    && final(self).position() == old(self).position(),
            },
    {
        reveal(parse_operator);
        let old = self.base.get_peek();
        let tmp = match self.base.consume() {
            Token::Plus => BinaryOperator::Add,
            Token::Minus => BinaryOperator::Sub,
            Token::Star => BinaryOperator::Mult,
            Token::Slash => BinaryOperator::Div,
            Token::Percent => BinaryOperator::Modulus,
            Token::LeftAngle => {
                if self.base.tryconsume(Token::LeftAngle) {
                    BinaryOperator::ShiftL
                } else if self.base.tryconsume(Token::Equals) {
                    BinaryOperator::Lessequ
                } else {
                    BinaryOperator::Less
                }
            },
            Token::RightAngle => {
                if self.base.tryconsume(Token::RightAngle) {
                    BinaryOperator::ShiftR
                } else if self.base.tryconsume(Token::Equals) {
                    BinaryOperator::Grequ
                } else {
                    BinaryOperator::Greater
                }
            },
            Token::Equals => {
                if self.base.tryconsume(Token::Equals) {
                    BinaryOperator::Equals
                } else {
                    self.base.set_peek(old);
                    return None;
                }
            },
            Token::Exclamation => {
                if self.base.tryconsume(Token::Equals) {
                    BinaryOperator::NotEquals
                } else {
                    self.base.set_peek(old);
                    return None;
                }
            },
            Token::Ampersand => {
                if self.base.tryconsume(Token::Ampersand) {
                    BinaryOperator::And
                } else {
                    BinaryOperator::Band
                }
            },
            Token::Pipe => {
                if self.base.tryconsume(Token::Pipe) {
                    BinaryOperator::Or
                } else {
                    BinaryOperator::Bor
                }
            },
            Token::Caret => BinaryOperator::Bxor,
            _ => {
                self.base.set_peek(old);
                return None;
            },
        };
        Some(tmp)
    }

    /// Reads the arguments of a call, up to the closing parenthesis.
    fn parse_args(&mut self) -> (r: Result<Vec<Expr>, DSAsmError>)
        requires
            old(self).wf(),
        ensures
            final(self).tokens() == old(self).tokens(),
            final(self).env() == old(self).env(),
            match r {
                Ok(args) => {
                    &&& final(self).wf()
                    &&& final(self).position() > old(self).position()
                    &&& parse_args(
                        old(self).tokens(),
                        old(self).position() as int,
                        old(self).env().vars,
                        old(self).env().methods,
                        Seq::empty(),
                    ) == Ok::<(Seq<ExprView>, nat), Failure>(
                        (
                            expr_views(args@),
                            (final(self).position() - old(self).position() - 1) as nat,
                        ),
                    )
                },
                Err(x) => parse_args(
                    old(self).tokens(),
                    old(self).position() as int,
                    old(self).env().vars,
                    old(self).env().methods,
                    Seq::empty(),
                ) == Err::<(Seq<ExprView>, nat), Failure>(x@),
            },
        decreases remaining(old(self).tokens(), old(self).position() as int), 2nat,
    {
        let mut params: Vec<Expr> = Vec::new();
        let ghost tokens = self.tokens();
        let ghost vars = self.env().vars;
        let ghost methods = self.env().methods;
        let ghost start = self.position() as int;
        assert(expr_views(params@) =~= Seq::empty());
        loop
            invariant
                self.wf(),
                self.tokens() == tokens,
                tokens == old(self).tokens(),
                start == old(self).position(),
                self.env() == old(self).env(),
                vars == self.env().vars,
                methods == self.env().methods,
                self.position() >= start,
                parse_args(tokens, start, vars, methods, Seq::empty()) == later(
                    parse_args(tokens, self.position() as int, vars, methods, expr_views(params@)),
                    (self.position() - start) as nat,
                ),
            decreases remaining(tokens, self.position() as int),
        {
            if !self.base.has_peek() {
                return Err(unclosed_error(Token::CloseParen));
            }
            if self.base.tryconsume(Token::CloseParen) {
                return Ok(params);
            }
            if params.len() > 0 {
                self.expect(Token::Comma)?;
            }
            let ghost done = expr_views(params@);
            let arg = self.parse_expr(false)?;
            params.push(arg);
            assert(expr_views(params@) =~= done.push(arg@));
        }
    }

    /// Reads an operand.
    fn parse_primary(&mut self, paren: bool) -> (r: Result<Expr, DSAsmError>)
        requires
            old(self).wf(),
        ensures
            final(self).parsed_expr(
                old(self),
                r,
                parse_primary(
                    old(self).tokens(),
                    old(self).position() as int,
                    old(self).env().vars,
                    old(self).env().methods,
                    paren,
                ),
            ),
        decreases remaining(old(self).tokens(), old(self).position() as int), 0nat,
    {
        let first = self.base.consume();
        match first {
            Token::Literal(val) => Ok(Expr::Literal(val)),
            Token::Identifier(ident) => {
                if self.base.tryconsume(Token::OpenParen) {
                    let id = match find(&self.methods, &ident) {
                        Some(id) => id,
                        None => {
                            return Err(named_error("Method ", &ident, " does not exist"));
                        },
                    };
                    let params = self.parse_args()?;
                    proof {
                        lemma_call_view(id, params);
                    }
                    Ok(Expr::MethodCall(id, params))
                } else {
                    match find(&self.vars, &ident) {
                        Some(id) => Ok(Expr::Variable(id)),
                        None => Err(named_error("Variable ", &ident, " does not exist")),
                    }
                }
            },
            Token::Getchar => Ok(Expr::UserInput),
            t => match prefix(&t) {
                Some(prefix) => {
                    let operand = self.parse_expr(paren || matches!(prefix, Prefix::Group))?;
                    Ok(with_prefix(prefix, operand))
                },
                None => {
                    let mut message = String::from_str("Invalid Token ");
                    push_quoted(&mut message, t.to_string().as_str());
                    Err(DSAsmError::ParserError(message))
                },
            },
        }
    }

    /// Reads an expression; with `paren`, also the parenthesis that closes
    /// it.
    fn parse_expr(&mut self, paren: bool) -> (r: Result<Expr, DSAsmError>)
        requires
            old(self).wf(),
        ensures
            final(self).parsed_expr(
                old(self),
                r,
                parse_expr(
                    old(self).tokens(),
                    old(self).position() as int,
                    old(self).env().vars,
                    old(self).env().methods,
                    paren,
                ),
            ),
        decreases remaining(old(self).tokens(), old(self).position() as int), 1nat,
    {
        if !self.base.has_peek() {
            let mut message = String::from_str("Invalid Token ");
            push_quoted(&mut message, Token::Invalid.to_string().as_str());
            return Err(DSAsmError::ParserError(message));
        }
        let mut left = self.parse_primary(paren)?;
        let operator = self.parse_operator();
        if let Some(operator) = operator {
            let right = self.parse_expr(false)?;
            left = combined(left, operator, right);
        }
        if paren {
            self.expect(Token::CloseParen)?;
        }
        Ok(left)
    }

    /// Binds `name` to the next identity and brings it into scope.
    fn declare(&mut self, name: &String) -> (id: u64)
        requires
            old(self).next_id < old(self).base.position(),
            old(self).base.position() <= old(self).base.items().len(),
        ensures
            final(self).wf(),
            final(self).tokens() == old(self).tokens(),
            final(self).position() == old(self).position(),
            final(self).env() == old(self).env().declare(name@),
            id == old(self).env().next_id,
    {
        let ghost before = variable_views(self.vars@);
        let id = self.generate_id();
        let var = Variable { name: name.clone(), id };
        self.vars.push(var);
        assert(variable_views(self.vars@) =~= before.push(VariableView { name: name@, id }));
        id
    }

    /// Puts the variables `vars` in scope in place of those that are.
    fn restore(&mut self, vars: Vec<Variable>)
        requires
            old(self).wf(),
        ensures
            final(self).wf(),
            final(self).tokens() == old(self).tokens(),
            final(self).position() == old(self).position(),
            final(self).env() == old(self).env().with_vars(variable_views(vars@)),
    {
        self.vars = vars;
    }

    /// Reads the expression of a statement.
    fn parse_value(&mut self) -> (r: Result<Expr, DSAsmError>)
        requires
            old(self).wf(),
        ensures
            final(self).parsed_expr(
                old(self),
                r,
                parse_value(old(self).tokens(), old(self).position() as int, old(self).env()),
            ),
    {
        reveal(parse_value);
        self.parse_expr(false)
    }

    /// Reads the statements of a scope, up to the closing brace.
    fn parse_items(&mut self) -> (r: Result<Vec<Node>, DSAsmError>)
        requires
            old(self).wf(),
        ensures
            final(self).tokens() == old(self).tokens(),
            match r {
                Ok(items) => {
                    &&& final(self).wf()
                    &&& final(self).position() > old(self).position()
                    &&& final(self).env().next_id + old(self).position() <= final(self).position()
                        + old(self).env().next_id
                    &&& parse_items(
                        old(self).tokens(),
                        old(self).position() as int,
                        old(self).env(),
                        Seq::empty(),
                    ) == Ok::<Parsed<Seq<NodeView>>, Failure>(
                        Parsed {
                            value: node_views(items@),
                            more: (final(self).position() - old(self).position() - 1) as nat,
                            env: final(self).env(),
                        },
                    )
                },
                Err(x) => parse_items(
                    old(self).tokens(),
                    old(self).position() as int,
                    old(self).env(),
                    Seq::empty(),
                ) == Err::<Parsed<Seq<NodeView>>, Failure>(x@),
            },
        decreases remaining(old(self).tokens(), old(self).position() as int), 4nat,
    {
        let mut scope: Vec<Node> = Vec::new();
        let ghost tokens = self.tokens();
        let ghost start = self.position() as int;
        assert(node_views(scope@) =~= Seq::empty());
        loop
            invariant
                self.wf(),
                self.tokens() == tokens,
                tokens == old(self).tokens(),
                start == old(self).position(),
                self.position() >= start,
                self.env().next_id - old(self).env().next_id <= self.position() - start,
                parse_items(tokens, start, old(self).env(), Seq::empty()) == after(
                    parse_items(tokens, self.position() as int, self.env(), node_views(scope@)),
                    (self.position() - start) as nat,
                ),
            decreases remaining(tokens, self.position() as int),
        {
            if !self.base.has_peek() {
                return Err(unclosed_error(Token::CloseCurly));
            }
            if self.base.tryconsume(Token::CloseCurly) {
                return Ok(scope);
            }
            let ghost done = node_views(scope@);
            let item = self.parse()?;
            scope.push(item);
            assert(node_views(scope@) =~= done.push(item@));
        }
    }

    /// Reads the rest of a `for` loop, after `for ( name =`.
    fn parse_for(&mut self, name: String, Ghost(before): Ghost<Parser>) -> (r: Result<
        Node,
        DSAsmError,
    >)
        requires
            old(self).tokens() == before.tokens(),
            old(self).position() == before.position() + 4,
            old(self).env() == before.env(),
            old(self).wf(),
            before.wf(),
            before.position() < before.tokens().len(),
        ensures
            final(self).parsed_node(
                &before,
                r,
                parse_for(before.tokens(), before.position() as int, before.env(), name@),
            ),
        decreases remaining(before.tokens(), before.position() as int), 2nat, 0nat,
    {
        let old = copy_variables(&self.vars);
        self.declare(&name);
        let start = self.parse_value()?;
        self.expect(Token::Semicolon)?;
        let cond = self.parse_value()?;
        self.expect(Token::Semicolon)?;
        let inc = self.parse()?;
        self.expect(Token::CloseParen)?;
        let body = self.parse()?;
        self.restore(old);
        Ok(
            Node::For(
                ForLoop {
                    var_name: name,
                    start,
                    condition: cond,
                    increment: Box::new(inc),
                    body: Box::new(body),
                },
            ),
        )
    }

    /// Reads the rest of a scope, after its opening brace.
    fn parse_scope(&mut self, Ghost(before): Ghost<Parser>) -> (r: Result<Node, DSAsmError>)
        requires
            old(self).follows_token(&before, Token::OpenCurly),
        ensures
            final(self).parsed_node(
                &before,
                r,
                parse_node(before.tokens(), before.position() as int, before.env()),
            ),
        decreases remaining(before.tokens(), before.position() as int), 2nat,
    {
        let old = copy_variables(&self.vars);
        let scope = self.parse_items()?;
        self.restore(old);
        proof {
            lemma_scope_view(scope);
        }
        Ok(Node::Scope(scope))
    }

    /// Reads the rest of a declaration, after `let`.
    fn parse_let(&mut self, Ghost(before): Ghost<Parser>) -> (r: Result<Node, DSAsmError>)
        requires
            old(self).follows_token(&before, Token::Let),
        ensures
            final(self).parsed_node(
                &before,
                r,
                parse_node(before.tokens(), before.position() as int, before.env()),
            ),
    {
        let name = self.name()?;
        if find(&self.vars, &name).is_some() {
            return Err(named_error("Variable ", &name, " already exists"));
        }
        let id = self.declare(&name);
        self.expect(Token::Equals)?;
        let value = self.parse_value()?;
        Ok(Node::VarDecl(id, value))
    }

    /// Reads the rest of an assignment, after the variable's name.
    fn parse_set(&mut self, name: String, Ghost(before): Ghost<Parser>) -> (r: Result<
        Node,
        DSAsmError,
    >)
        requires
            old(self).follows(&before),
            token_at(before.tokens(), before.position() as int) == TokenView::Identifier(name@),
        ensures
            final(self).parsed_node(
                &before,
                r,
                parse_node(before.tokens(), before.position() as int, before.env()),
            ),
    {
        let id = match find(&self.vars, &name) {
            Some(id) => id,
            None => {
                return Err(named_error("Variable ", &name, " does not exists"));
            },
        };
        self.expect(Token::Equals)?;
        let value = self.parse_value()?;
        Ok(Node::VarSet(id, value))
    }

    /// Reads the rest of an `if` or, with `repeat`, of a `while`, after the
    /// keyword.
    fn parse_guarded(&mut self, repeat: bool, Ghost(before): Ghost<Parser>) -> (r: Result<
        Node,
        DSAsmError,
    >)
        requires
            old(self).follows_token(
                &before,
                if repeat {
                    Token::While
                } else {
                    Token::If
                },
            ),
        ensures
            final(self).parsed_node(
                &before,
                r,
                parse_node(before.tokens(), before.position() as int, before.env()),
            ),
        decreases remaining(before.tokens(), before.position() as int), 2nat,
    {
        let condition = self.parse_value()?;
        let body = self.parse()?;
        if repeat {
            Ok(Node::While(condition, Box::new(body)))
        } else {
            Ok(Node::If(condition, Box::new(body)))
        }
    }

    /// Reads the rest of a `putchar` or, with `give`, of a `return`, after
    /// the keyword.
    fn parse_keyword(&mut self, give: bool, Ghost(before): Ghost<Parser>) -> (r: Result<
        Node,
        DSAsmError,
    >)
        requires
            old(self).follows_token(
                &before,
                if give {
                    Token::Return
                } else {
                    Token::Putchar
                },
            ),
        ensures
            final(self).parsed_node(
                &before,
                r,
                parse_node(before.tokens(), before.position() as int, before.env()),
            ),
    {
        let value = self.parse_value()?;
        if give {
            Ok(Node::Return(value))
        } else {
            Ok(Node::Putchar(value))
        }
    }

    /// Reads the head of a `for` loop, after the keyword, and then the rest.
    fn parse_for_head(&mut self, Ghost(before): Ghost<Parser>) -> (r: Result<Node, DSAsmError>)
        requires
            old(self).follows_token(&before, Token::For),
        ensures
            final(self).parsed_node(
                &before,
                r,
                parse_node(before.tokens(), before.position() as int, before.env()),
            ),
        decreases remaining(before.tokens(), before.position() as int), 2nat, 1nat,
    {
        self.expect(Token::OpenParen)?;
        let name = self.name()?;
        self.expect(Token::Equals)?;
        self.parse_for(name, Ghost(before))
    }

    /// Reads a statement.
    fn parse(&mut self) -> (r: Result<Node, DSAsmError>)
        requires
            old(self).wf(),
        ensures
            final(self).parsed_node(
                old(self),
                r,
                parse_node(old(self).tokens(), old(self).position() as int, old(self).env()),
            ),
        decreases remaining(old(self).tokens(), old(self).position() as int), 3nat,
    {
        let ghost before = *self;
        let first = self.base.consume();
        match first {
            Token::OpenCurly => self.parse_scope(Ghost(before)),
            Token::Let => self.parse_let(Ghost(before)),
            Token::Identifier(name) => self.parse_set(name, Ghost(before)),
            Token::For => self.parse_for_head(Ghost(before)),
            Token::If => self.parse_guarded(false, Ghost(before)),
            Token::While => self.parse_guarded(true, Ghost(before)),
            Token::Putchar => self.parse_keyword(false, Ghost(before)),
            Token::Return => self.parse_keyword(true, Ghost(before)),
            t => {
                let mut message = String::from_str("Unexpected ");
                push_quoted(&mut message, t.to_string().as_str());
                Err(DSAsmError::ParserError(message))
            },
        }
    }

    /// Reads the parameters of a method, up to the closing parenthesis.
    fn parse_params(&mut self) -> (r: Result<Vec<Variable>, DSAsmError>)
        requires
            old(self).wf(),
            old(self).next_id < old(self).base.position(),
        ensures
            final(self).tokens() == old(self).tokens(),
            match r {
                Ok(params) => {
                    &&& final(self).wf()
                    &&& final(self).position() > old(self).position()
                    &&& final(self).env().next_id + old(self).position() < final(self).position()
                        + old(self).env().next_id
                    &&& parse_params(
                        old(self).tokens(),
                        old(self).position() as int,
                        old(self).env(),
                        Seq::empty(),
                    ) == Ok::<Parsed<Seq<VariableView>>, Failure>(
                        Parsed {
                            value: variable_views(params@),
                            more: (final(self).position() - old(self).position() - 1) as nat,
                            env: final(self).env(),
                        },
                    )
                },
                Err(x) => parse_params(
                    old(self).tokens(),
                    old(self).position() as int,
                    old(self).env(),
                    Seq::empty(),
                ) == Err::<Parsed<Seq<VariableView>>, Failure>(x@),
            },
    {
        let mut params: Vec<Variable> = Vec::new();
        let ghost tokens = self.tokens();
        let ghost start = self.position() as int;
        assert(variable_views(params@) =~= Seq::empty());
        loop
            invariant
                self.wf(),
                self.tokens() == tokens,
                tokens == old(self).tokens(),
                start == old(self).position(),
                self.position() >= start,
                self.next_id < self.base.position(),
                self.env().next_id - old(self).env().next_id <= self.position() - start,
                parse_params(tokens, start, old(self).env(), Seq::empty()) == after(
                    parse_params(
                        tokens,
                        self.position() as int,
                        self.env(),
                        variable_views(params@),
                    ),
                    (self.position() - start) as nat,
                ),
            decreases remaining(tokens, self.position() as int),
        {
            if !self.base.has_peek() {
                return Err(unclosed_error(Token::CloseParen));
            }
            if self.base.tryconsume(Token::CloseParen) {
                return Ok(params);
            }
            if params.len() > 0 {
                self.expect(Token::Comma)?;
            }
            let name = self.name()?;
            let ghost done = variable_views(params@);
            let id = self.declare(&name);
            let var = Variable { name, id };
            params.push(var);
            assert(variable_views(params@) =~= done.push(var@));
        }
    }

    /// Reads the rest of a method, after the keyword.
    fn parse_method(&mut self, Ghost(before): Ghost<Parser>) -> (r: Result<Node, DSAsmError>)
        requires
            old(self).tokens() == before.tokens(),
            old(self).position() == before.position() + 1,
            old(self).env() == before.env(),
            old(self).wf(),
            before.wf(),
        ensures
            final(self).parsed_node(
                &before,
                r,
                parse_method(before.tokens(), before.position() as int, before.env()),
            ),
    {
        reveal(parse_method);
        let name = self.name()?;
        self.expect(Token::OpenParen)?;
        let old = copy_variables(&self.vars);
        let params = self.parse_params()?;
        let node = self.parse()?;
        self.restore(old);
        let ghost done = variable_views(self.methods@);
        let id = self.generate_id();
        self.methods.push(Variable { name: name.clone(), id });
        assert(variable_views(self.methods@) =~= done.push(VariableView { name: name@, id }));
        Ok(Node::MethodDecl(Method { name, id, parameters: params, body: Box::new(node) }))
    }

    /// Reads a method or a statement.
    fn parse_top(&mut self) -> (r: Result<Node, DSAsmError>)
        requires
            old(self).wf(),
            old(self).position() < old(self).tokens().len(),
        ensures
            final(self).parsed_node(
                old(self),
                r,
                parse_top(old(self).tokens(), old(self).position() as int, old(self).env()),
            ),
            r matches Err(x) ==> x@.kind == ErrorKind::Parser,
    {
        let ghost before = *self;
        proof {
            reveal(parse_top);
            lemma_statement_failure_kind(self.tokens(), self.position() as int, self.env());
        }
        if self.base.tryconsume(Token::Method) {
            self.parse_method(Ghost(before))
        } else {
            self.parse()
        }
    }

    /// Reads the whole program: method declarations and statements, up to
    /// the end of the tokens. The identities that the nodes declare are all
    /// distinct.
    pub fn parse_all(&mut self) -> (r: Result<Vec<Node>, DSAsmError>)
        requires
            old(self).wf(),
        ensures
            final(self).tokens() == old(self).tokens(),
            match r {
                Ok(nodes) => {
                    &&& final(self).wf()
                    &&& final(self).position() == final(self).tokens().len()
                    &&& parse_program(
                        old(self).tokens(),
                        old(self).position() as int,
                        old(self).env(),
                        Seq::empty(),
                    ) matches Ok(p)
                    &&& p.value == node_views(nodes@)
                    &&& p.more == final(self).position() - old(self).position()
                    &&& p.env == final(self).env()
                    &&& declared_all(node_views(nodes@)).no_duplicates()
                },
                Err(x) => parse_program(
                    old(self).tokens(),
                    old(self).position() as int,
                    old(self).env(),
                    Seq::empty(),
                ) == Err::<Parsed<Seq<NodeView>>, Failure>(x@) && x@.kind == ErrorKind::Parser,
            },
    {
        let mut nodes: Vec<Node> = Vec::new();
        let ghost tokens = self.tokens();
        let ghost start = self.position() as int;
        assert(node_views(nodes@) =~= Seq::empty());
        while self.base.has_peek()
            invariant
                self.wf(),
                self.tokens() == tokens,
                tokens == old(self).tokens(),
                start == old(self).position(),
                self.position() >= start,
                parse_program(tokens, start, old(self).env(), Seq::empty()) == after(
                    parse_program(tokens, self.position() as int, self.env(), node_views(nodes@)),
                    (self.position() - start) as nat,
                ),
            decreases remaining(tokens, self.position() as int),
        {
            let ghost done = node_views(nodes@);
            let node = self.parse_top()?;
            nodes.push(node);
            assert(node_views(nodes@) =~= done.push(node@));
        }
        proof {
            lemma_identities_distinct(tokens, start, old(self).env());
        }
        Ok(nodes)
    }
}

/// Parsing a statement or a method fails only with an error of the parser.
pub proof fn lemma_statement_failure_kind(tokens: Seq<TokenView>, pos: int, env: Env)
    ensures
        parse_node(tokens, pos, env) matches Err(e) ==> e.kind == ErrorKind::Parser,
        parse_method(tokens, pos, env) matches Err(e) ==> e.kind == ErrorKind::Parser,
{
    reveal(parse_method);
    lemma_node_failure_kind(tokens, pos, env);
    match token_at(tokens, pos + 1) {
        TokenView::Identifier(name) => {
            if is_at(tokens, pos + 2, Token::OpenParen) {
                lemma_params_failure_kind(tokens, pos + 3, env, Seq::empty());
                match parse_params(tokens, pos + 3, env, Seq::empty()) {
                    Err(e) => {},
                    Ok(parameters) => {
                        lemma_node_failure_kind(tokens, pos + 4 + parameters.more, parameters.env);
                    },
                }
            }
        },
        _ => {},
    }
}

/// Parsing parameters fails only with an error of the parser.
pub proof fn lemma_params_failure_kind(
    tokens: Seq<TokenView>,
    pos: int,
    env: Env,
    done: Seq<VariableView>,
)
    ensures
        parse_params(tokens, pos, env, done) matches Err(e) ==> e.kind == ErrorKind::Parser,
    decreases remaining(tokens, pos),
{
    if 0 <= pos < tokens.len() && tokens[pos] != TokenView::Plain(Token::CloseParen) && !(done.len()
        > 0 && tokens[pos] != TokenView::Plain(Token::Comma)) {
        let comma: nat = if done.len() > 0 {
            1
        } else {
            0
        };
        match token_at(tokens, pos + comma) {
            TokenView::Identifier(name) => {
                lemma_params_failure_kind(
                    tokens,
                    pos + comma + 1,
                    env.declare(name),
                    done.push(VariableView { name, id: env.next_id as u64 }),
                );
            },
            _ => {},
        }
    }
}

/// Parsing an expression fails only with an error of the parser.
pub proof fn lemma_expr_failure_kind(
    tokens: Seq<TokenView>,
    pos: int,
    vars: Seq<VariableView>,
    methods: Seq<VariableView>,
    paren: bool,
)
    ensures
        parse_expr(tokens, pos, vars, methods, paren) matches Err(e) ==> e.kind
            == ErrorKind::Parser,
    decreases remaining(tokens, pos), 1nat,
{
    if 0 <= pos < tokens.len() {
        lemma_primary_failure_kind(tokens, pos, vars, methods, paren);
        match parse_primary(tokens, pos, vars, methods, paren) {
            Err(e) => {},
            Ok((left, first)) => {
                match parse_operator(tokens, pos + 1 + first) {
                    None => {},
                    Some((operator, width)) => {
                        lemma_expr_failure_kind(
                            tokens,
                            pos + 1 + first + width,
                            vars,
                            methods,
                            false,
                        );
                    },
                }
            },
        }
    }
}

/// Parsing an operand fails only with an error of the parser.
pub proof fn lemma_primary_failure_kind(
    tokens: Seq<TokenView>,
    pos: int,
    vars: Seq<VariableView>,
    methods: Seq<VariableView>,
    paren: bool,
)
    ensures
        parse_primary(tokens, pos, vars, methods, paren) matches Err(e) ==> e.kind
            == ErrorKind::Parser,
    decreases remaining(tokens, pos), 0nat,
{
    match token_at(tokens, pos) {
        TokenView::Plain(Token::Literal(val)) => {},
        TokenView::Identifier(name) => {
            if token_at(tokens, pos + 1) == TokenView::Plain(Token::OpenParen) {
                lemma_args_failure_kind(tokens, pos + 2, vars, methods, Seq::empty());
            }
        },
        TokenView::Plain(Token::Getchar) => {},
        found => {
            match prefix_of(found) {
                Some(prefix) => {
                    lemma_expr_failure_kind(
                        tokens,
                        pos + 1,
                        vars,
                        methods,
                        paren || prefix == Prefix::Group,
                    );
                },
                None => {},
            }
        },
    }
}

/// Parsing arguments fails only with an error of the parser.
pub proof fn lemma_args_failure_kind(
    tokens: Seq<TokenView>,
    pos: int,
    vars: Seq<VariableView>,
    methods: Seq<VariableView>,
    done: Seq<ExprView>,
)
    ensures
        parse_args(tokens, pos, vars, methods, done) matches Err(e) ==> e.kind
            == ErrorKind::Parser,
    decreases remaining(tokens, pos), 2nat,
{
    if 0 <= pos < tokens.len() && tokens[pos] != TokenView::Plain(Token::CloseParen) && !(done.len()
        > 0 && tokens[pos] != TokenView::Plain(Token::Comma)) {
        let comma: nat = if done.len() > 0 {
            1
        } else {
            0
        };
        lemma_expr_failure_kind(tokens, pos + comma, vars, methods, false);
        match parse_expr(tokens, pos + comma, vars, methods, false) {
            Err(e) => {},
            Ok((arg, more)) => {
                lemma_args_failure_kind(
                    tokens,
                    pos + comma + 1 + more,
                    vars,
                    methods,
                    done.push(arg),
                );
            },
        }
    }
}

/// Parsing a statement fails only with an error of the parser.
pub proof fn lemma_node_failure_kind(tokens: Seq<TokenView>, pos: int, env: Env)
    ensures
        parse_node(tokens, pos, env) matches Err(e) ==> e.kind == ErrorKind::Parser,
    decreases remaining(tokens, pos), 3nat,
{
    reveal(parse_value);
    match token_at(tokens, pos) {
        TokenView::Plain(Token::OpenCurly) => {
            lemma_items_failure_kind(tokens, pos + 1, env, Seq::empty());
        },
        TokenView::Plain(Token::Let) => {
            match token_at(tokens, pos + 1) {
                TokenView::Identifier(name) => {
                    lemma_expr_failure_kind(
                        tokens,
                        pos + 3,
                        env.declare(name).vars,
                        env.methods,
                        false,
                    );
                },
                _ => {},
            }
        },
        TokenView::Identifier(name) => {
            lemma_expr_failure_kind(tokens, pos + 2, env.vars, env.methods, false);
        },
        TokenView::Plain(Token::For) => {
            match token_at(tokens, pos + 2) {
                TokenView::Identifier(name) => {
                    lemma_for_failure_kind(tokens, pos, env, name);
                },
                _ => {},
            }
        },
        TokenView::Plain(Token::If) | TokenView::Plain(Token::While) => {
            lemma_expr_failure_kind(tokens, pos + 1, env.vars, env.methods, false);
            match parse_expr(tokens, pos + 1, env.vars, env.methods, false) {
                Err(e) => {},
                Ok((condition, more)) => {
                    lemma_node_failure_kind(tokens, pos + 2 + more, env);
                },
            }
        },
        TokenView::Plain(Token::Putchar) | TokenView::Plain(Token::Return) => {
            lemma_expr_failure_kind(tokens, pos + 1, env.vars, env.methods, false);
        },
        _ => {},
    }
}

/// Parsing a `for` loop fails only with an error of the parser.
pub proof fn lemma_for_failure_kind(tokens: Seq<TokenView>, pos: int, env: Env, name: Seq<char>)
    ensures
        parse_for(tokens, pos, env, name) matches Err(e) ==> e.kind == ErrorKind::Parser,
    decreases remaining(tokens, pos), 2nat,
{
    reveal(parse_value);
    let inner = env.declare(name);
    if 0 <= pos < tokens.len() {
        lemma_expr_failure_kind(tokens, pos + 4, inner.vars, inner.methods, false);
        match parse_expr(tokens, pos + 4, inner.vars, inner.methods, false) {
            Err(e) => {},
            Ok((start, first)) => {
                lemma_expr_failure_kind(tokens, pos + 6 + first, inner.vars, inner.methods, false);
                match parse_expr(tokens, pos + 6 + first, inner.vars, inner.methods, false) {
                    Err(e) => {},
                    Ok((condition, second)) => {
                        lemma_node_failure_kind(tokens, pos + 8 + first + second, inner);
                        match parse_node(tokens, pos + 8 + first + second, inner) {
                            Err(e) => {},
                            Ok(increment) => {
                                let close = pos + 9 + first + second + increment.more;
                                lemma_node_failure_kind(tokens, close + 1, increment.env);
                            },
                        }
                    },
                }
            },
        }
    }
}

/// Parsing the statements of a scope fails only with an error of the
/// parser.
pub proof fn lemma_items_failure_kind(
    tokens: Seq<TokenView>,
    pos: int,
    env: Env,
    done: Seq<NodeView>,
)
    ensures
        parse_items(tokens, pos, env, done) matches Err(e) ==> e.kind == ErrorKind::Parser,
    decreases remaining(tokens, pos), 4nat,
{
    if 0 <= pos < tokens.len() && tokens[pos] != TokenView::Plain(Token::CloseCurly) {
        lemma_node_failure_kind(tokens, pos, env);
        match parse_node(tokens, pos, env) {
            Err(e) => {},
            Ok(item) => {
                lemma_items_failure_kind(
                    tokens,
                    pos + 1 + item.more,
                    item.env,
                    done.push(item.value),
                );
            },
        }
    }
}

} // verus!
