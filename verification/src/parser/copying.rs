//! Copies of expressions and statements.
use vstd::prelude::*;
use crate::parser::{
    Binary, Expr, ForLoop, Method, Node, Unary, copy_variables, expr_view, expr_views,
    lemma_call_view, lemma_scope_view, node_view, node_views, variable_views,
};

verus! {

/// Copies of the first `count` of the expressions `args`.
fn copy_exprs(args: &Vec<Expr>, count: usize) -> (r: Vec<Expr>)
    requires
        count <= args.len(),
    ensures
        expr_views(r@) == expr_views(args@).subrange(0, count as int),
    decreases args, count,
{
    if count == 0 {
        let r: Vec<Expr> = Vec::new();
        assert(expr_views(r@) =~= expr_views(args@).subrange(0, 0));
        r
    } else {
        let mut r = copy_exprs(args, count - 1);
        let ghost before = expr_views(r@);
        let last = copy_expr(&args[count - 1]);
        r.push(last);
        assert(expr_views(r@) =~= before.push(last@));
        assert(before.push(last@) =~= expr_views(args@).subrange(0, count as int));
        r
    }
}

/// A copy of an expression.
fn copy_expr(e: &Expr) -> (r: Expr)
    ensures
        r@ == e@,
    decreases e, 0nat,
{
    match e {
        Expr::Literal(n) => Expr::Literal(*n),
        Expr::Variable(id) => Expr::Variable(*id),
        Expr::UserInput => Expr::UserInput,
        Expr::Reference(inner) => Expr::Reference(Box::new(copy_expr(inner))),
        Expr::Dereference(inner) => Expr::Dereference(Box::new(copy_expr(inner))),
        Expr::MethodCall(id, args) => {
            let copies = copy_exprs(args, args.len());
            proof {
                lemma_call_view(*id, *args);
                lemma_call_view(*id, copies);
                assert(expr_views(args@).subrange(0, args.len() as int) =~= expr_views(args@));
            }
            Expr::MethodCall(*id, copies)
        },
        Expr::Binary(b) => Expr::Binary(
            Binary {
                left: Box::new(copy_expr(&b.left)),
                right: Box::new(copy_expr(&b.right)),
                operator: b.operator,
            },
        ),
        Expr::Unary(u) => Expr::Unary(
            Unary { right: Box::new(copy_expr(&u.right)), operator: u.operator },
        ),
    }
}

/// Copies of the first `count` of the statements `items`.
fn copy_nodes(items: &Vec<Node>, count: usize) -> (r: Vec<Node>)
    requires
        count <= items.len(),
    ensures
        node_views(r@) == node_views(items@).subrange(0, count as int),
    decreases items, count,
{
    if count == 0 {
        let r: Vec<Node> = Vec::new();
        assert(node_views(r@) =~= node_views(items@).subrange(0, 0));
        r
    } else {
        let mut r = copy_nodes(items, count - 1);
        let ghost before = node_views(r@);
        let last = copy_node(&items[count - 1]);
        r.push(last);
        assert(node_views(r@) =~= before.push(last@));
        assert(before.push(last@) =~= node_views(items@).subrange(0, count as int));
        r
    }
}

/// A copy of a statement.
fn copy_node(n: &Node) -> (r: Node)
    ensures
        r@ == n@,
    decreases n, 0nat,
{
    match n {
        Node::Scope(items) => {
            let copies = copy_nodes(items, items.len());
            proof {
                lemma_scope_view(*items);
                lemma_scope_view(copies);
                assert(node_views(items@).subrange(0, items.len() as int) =~= node_views(items@));
            }
            Node::Scope(copies)
        },
        Node::VarDecl(id, e) => Node::VarDecl(*id, copy_expr(e)),
        Node::VarSet(id, e) => Node::VarSet(*id, copy_expr(e)),
        Node::If(e, body) => Node::If(copy_expr(e), Box::new(copy_node(body))),
        Node::While(e, body) => Node::While(copy_expr(e), Box::new(copy_node(body))),
        Node::For(f) => Node::For(
            ForLoop {
                var_name: f.var_name.clone(),
                start: copy_expr(&f.start),
                condition: copy_expr(&f.condition),
                increment: Box::new(copy_node(&f.increment)),
                body: Box::new(copy_node(&f.body)),
            },
        ),
        Node::Putchar(e) => Node::Putchar(copy_expr(e)),
        Node::MethodDecl(m) => Node::MethodDecl(
            Method {
                name: m.name.clone(),
                id: m.id,
                parameters: copy_variables(&m.parameters),
                body: Box::new(copy_node(&m.body)),
            },
        ),
        Node::Return(e) => Node::Return(copy_expr(e)),
        Node::Invalid => Node::Invalid,
    }
}

impl Clone for Expr {
    fn clone(&self) -> (r: Expr)
        ensures
            r@ == self@,
    {
        copy_expr(self)
    }
}

impl Clone for Node {
    fn clone(&self) -> (r: Node)
        ensures
            r@ == self@,
    {
        copy_node(self)
    }
}

impl Clone for Binary {
    fn clone(&self) -> (r: Binary)
        ensures
            expr_view(*r.left) == expr_view(*self.left),
            expr_view(*r.right) == expr_view(*self.right),
            r.operator == self.operator,
    {
        Binary {
            left: Box::new(copy_expr(&self.left)),
            right: Box::new(copy_expr(&self.right)),
            operator: self.operator,
        }
    }
}

impl Clone for Unary {
    fn clone(&self) -> (r: Unary)
        ensures
            expr_view(*r.right) == expr_view(*self.right),
            r.operator == self.operator,
    {
        Unary { right: Box::new(copy_expr(&self.right)), operator: self.operator }
    }
}

impl Clone for ForLoop {
    fn clone(&self) -> (r: ForLoop)
        ensures
            r.var_name@ == self.var_name@,
            r.start@ == self.start@,
            r.condition@ == self.condition@,
            node_view(*r.increment) == node_view(*self.increment),
            node_view(*r.body) == node_view(*self.body),
    {
        ForLoop {
            var_name: self.var_name.clone(),
            start: copy_expr(&self.start),
            condition: copy_expr(&self.condition),
            increment: Box::new(copy_node(&self.increment)),
            body: Box::new(copy_node(&self.body)),
        }
    }
}

impl Clone for Method {
    fn clone(&self) -> (r: Method)
        ensures
            r.name@ == self.name@,
            r.id == self.id,
            variable_views(r.parameters@) == variable_views(self.parameters@),
            node_view(*r.body) == node_view(*self.body),
    {
        Method {
            name: self.name.clone(),
            id: self.id,
            parameters: copy_variables(&self.parameters),
            body: Box::new(copy_node(&self.body)),
        }
    }
}

} // verus!
