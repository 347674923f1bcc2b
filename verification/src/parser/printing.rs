//! The printed form of expressions and statements.
use vstd::prelude::*;
use vstd::string::StringExecFns;
use crate::parser::{
    Expr, ExprView, Node, NodeView, Variable, VariableView, expr_views, lemma_call_view,
    lemma_scope_view, node_views, variable_views,
};
use crate::text::{decimal, push_decimal};

verus! {

/// The first `count` of the texts `parts`, with `separator` between each
/// two.
pub open spec fn joined(parts: Seq<Seq<char>>, separator: Seq<char>, count: nat) -> Seq<char>
    decreases count,
{
    if count == 0 || count > parts.len() {
        Seq::empty()
    } else if count == 1 {
        parts[0]
    } else {
        joined(parts, separator, (count - 1) as nat) + separator + parts[count - 1]
    }
}

/// An identity as it is printed in an expression: `${#7}`.
pub open spec fn identity_text(id: u64) -> Seq<char> {
    "${#"@ + decimal(id as nat) + "}"@
}

/// The printed form of an expression.
pub open spec fn expr_text(e: ExprView) -> Seq<char>
    decreases e, 0nat,
{
    match e {
        ExprView::Literal(n) => decimal(n as nat),
        ExprView::Variable(id) => identity_text(id),
        ExprView::UserInput => "getchar"@,
        ExprView::Reference(inner) => "&"@ + expr_text(*inner),
        ExprView::Dereference(inner) => "*"@ + expr_text(*inner),
        ExprView::MethodCall(id, args) => identity_text(id) + "("@ + joined(
            expr_texts(args, args.len()),
            ", "@,
            args.len(),
        ) + ")"@,
        ExprView::Binary(left, operator, right) => expr_text(*left) + " "@ + operator.symbol()
            + " "@ + expr_text(*right),
        ExprView::Unary(operator, operand) => operator.symbol() + expr_text(*operand),
    }
}

/// The printed forms of the first `count` of the expressions `args`.
pub open spec fn expr_texts(args: Seq<ExprView>, count: nat) -> Seq<Seq<char>>
    decreases args, count,
{
    if count == 0 || count > args.len() {
        Seq::empty()
    } else {
        expr_texts(args, (count - 1) as nat).push(expr_text(args[count - 1]))
    }
}

/// A variable as it is printed in the head of a method: `name#7`.
pub open spec fn parameter_text(v: VariableView) -> Seq<char> {
    v.name + "#"@ + decimal(v.id as nat)
}

/// The printed forms of the first `count` parameters.
pub open spec fn parameter_texts(parameters: Seq<VariableView>, count: nat) -> Seq<Seq<char>>
    decreases count,
{
    if count == 0 || count > parameters.len() {
        Seq::empty()
    } else {
        parameter_texts(parameters, (count - 1) as nat).push(
            parameter_text(parameters[count - 1]),
        )
    }
}

/// The printed form of a statement.
pub open spec fn node_text(n: NodeView) -> Seq<char>
    decreases n, 0nat,
{
    match n {
        NodeView::Scope(items) => "{\n"@ + items_text(items, items.len()) + "}"@,
        NodeView::VarDecl(id, e) => "let #"@ + decimal(id as nat) + " = "@ + expr_text(e),
        NodeView::VarSet(id, e) => "#"@ + decimal(id as nat) + " = "@ + expr_text(e),
        NodeView::If(e, body) => "if ("@ + expr_text(e) + ") "@ + node_text(*body),
        NodeView::While(e, body) => "while ("@ + expr_text(e) + ") "@ + node_text(*body),
        NodeView::For { var_name, start, condition, increment, body } => "for ("@ + var_name
            + " = "@ + expr_text(start) + "; "@ + expr_text(condition) + "; "@ + node_text(
            *increment,
        ) + ") "@ + node_text(*body),
        NodeView::Putchar(e) => "putchar("@ + expr_text(e) + ")"@,
        NodeView::MethodDecl { name, id, parameters, body } => "method "@ + name + "["@ + decimal(
            id as nat,
        ) + "]("@ + joined(parameter_texts(parameters, parameters.len()), ", "@, parameters.len())
            + ") "@ + node_text(*body),
        NodeView::Return(e) => "return "@ + expr_text(e),
        NodeView::Invalid => "Invalid"@,
    }
}

/// The printed forms of the first `count` statements of a scope, each
/// after a tabulator.
pub open spec fn items_text(items: Seq<NodeView>, count: nat) -> Seq<char>
    decreases items, count,
{
    if count == 0 || count > items.len() {
        Seq::empty()
    } else {
        items_text(items, (count - 1) as nat) + "\t"@ + node_text(items[count - 1])
    }
}

/// The texts of the first expressions do not depend on the later ones.
proof fn lemma_joined_prefix(
    parts: Seq<Seq<char>>,
    longer: Seq<Seq<char>>,
    separator: Seq<char>,
    count: nat,
)
    requires
        count <= parts.len() <= longer.len(),
        forall|i: int| 0 <= i < parts.len() ==> parts[i] == longer[i],
    ensures
        joined(longer, separator, count) == joined(parts, separator, count),
    decreases count,
{
    if count > 1 {
        lemma_joined_prefix(parts, longer, separator, (count - 1) as nat);
    }
}

/// Appends `part` to the text `out` of `count` parts joined so far.
fn push_part(out: &mut String, part: &str, count: usize, Ghost(parts): Ghost<Seq<Seq<char>>>)
    requires
        count <= parts.len(),
    ensures
        joined(parts, ", "@, count as nat) + (if count > 0 {
            ", "@ + part@
        } else {
            part@
        }) == joined(parts.subrange(0, count as int).push(part@), ", "@, (count + 1) as nat),
        final(out)@ == old(out)@ + (if count > 0 {
            ", "@ + part@
        } else {
            part@
        }),
{
    let ghost before = parts.subrange(0, count as int);
    let ghost after = before.push(part@);
    proof {
        lemma_joined_prefix(before, parts, ", "@, count as nat);
        lemma_joined_prefix(before, after, ", "@, count as nat);
        if count > 0 {
            assert(joined(after, ", "@, (count + 1) as nat) == joined(after, ", "@, count as nat)
                + ", "@ + part@);
            assert(joined(parts, ", "@, count as nat) + (", "@ + part@) =~= joined(
                parts,
                ", "@,
                count as nat,
            ) + ", "@ + part@);
        } else {
            assert(joined(parts, ", "@, 0) + part@ =~= part@);
        }
    }
    if count > 0 {
        out.append(", ");
        out.append(part);
        assert(old(out)@ + ", "@ + part@ =~= old(out)@ + (", "@ + part@));
    } else {
        out.append(part);
    }
}

/// The printed forms of the first `count` of the arguments `args`, with
/// commas between them.
fn print_args(args: &Vec<Expr>, count: usize) -> (s: String)
    requires
        count <= args.len(),
    ensures
        s@ == joined(expr_texts(expr_views(args@), count as nat), ", "@, count as nat),
        expr_texts(expr_views(args@), count as nat).len() == count,
    decreases args, count,
{
    let ghost views = expr_views(args@);
    if count == 0 {
        String::new()
    } else if count == 1 {
        print_expr(&args[0])
    } else {
        let mut s = print_args(args, count - 1);
        s.append(", ");
        s.append(print_expr(&args[count - 1]).as_str());
        proof {
            let fewer = expr_texts(views, (count - 1) as nat);
            let all = expr_texts(views, count as nat);
            lemma_joined_prefix(fewer, all, ", "@, (count - 1) as nat);
        }
        s
    }
}

/// The printed form of an expression.
fn print_expr(e: &Expr) -> (s: String)
    ensures
        s@ == expr_text(e@),
    decreases e, 0nat,
{
    {
        match e {
            Expr::Literal(n) => {
                let mut s = String::new();
                push_decimal(&mut s, *n as u64);
                assert(Seq::<char>::empty() + decimal(*n as nat) =~= decimal(*n as nat));
                s
            },
            Expr::Variable(id) => identity(*id),
            Expr::UserInput => String::from_str("getchar"),
            Expr::Reference(inner) => {
                let mut s = String::from_str("&");
                s.append(print_expr(inner).as_str());
                s
            },
            Expr::Dereference(inner) => {
                let mut s = String::from_str("*");
                s.append(print_expr(inner).as_str());
                s
            },
            Expr::MethodCall(id, args) => {
                proof {
                    lemma_call_view(*id, *args);
                }
                let mut s = identity(*id);
                s.append("(");
                s.append(print_args(args, args.len()).as_str());
                s.append(")");
                s
            },
            Expr::Binary(b) => {
                let mut s = print_expr(&b.left);
                s.append(" ");
                s.append(b.operator.to_str());
                s.append(" ");
                s.append(print_expr(&b.right).as_str());
                s
            },
            Expr::Unary(u) => {
                let mut s = String::from_str(u.operator.to_str());
                s.append(print_expr(&u.right).as_str());
                s
            },
        }
    }
}

impl Expr {
    /// The printed form of the expression.
    pub fn to_string(&self) -> (s: String)
        ensures
            s@ == expr_text(self@),
    {
        print_expr(self)
    }
}

fn identity(id: u64) -> (s: String)
    ensures
        s@ == identity_text(id),
{
    let mut s = String::from_str("${#");
    push_decimal(&mut s, id);
    s.append("}");
    s
}

fn numbered(head: &str, id: u64, tail: &str) -> (s: String)
    ensures
        s@ == head@ + decimal(id as nat) + tail@,
{
    let mut s = String::from_str(head);
    push_decimal(&mut s, id);
    s.append(tail);
    s
}

fn parameter(v: &Variable) -> (s: String)
    ensures
        s@ == parameter_text(v@),
{
    let mut s = v.name.clone();
    s.append("#");
    push_decimal(&mut s, v.id);
    s
}

/// The printed forms of the first `count` of the statements `items`, each
/// after a tabulator.
fn print_items(items: &Vec<Node>, count: usize) -> (s: String)
    requires
        count <= items.len(),
    ensures
        s@ == items_text(node_views(items@), count as nat),
    decreases items, count,
{
    if count == 0 {
        String::new()
    } else {
        let mut s = print_items(items, count - 1);
        s.append("\t");
        s.append(print_node(&items[count - 1]).as_str());
        s
    }
}

/// The printed form of a statement.
fn print_node(n: &Node) -> (s: String)
    ensures
        s@ == node_text(n@),
    decreases n, 0nat,
{
    {
        match n {
            Node::Scope(items) => {
                proof {
                    lemma_scope_view(*items);
                }
                let mut s = String::from_str("{\n");
                s.append(print_items(items, items.len()).as_str());
                s.append("}");
                s
            },
            Node::VarDecl(id, e) => {
                let mut s = numbered("let #", *id, " = ");
                s.append(e.to_string().as_str());
                s
            },
            Node::VarSet(id, e) => {
                let mut s = numbered("#", *id, " = ");
                s.append(e.to_string().as_str());
                s
            },
            Node::If(e, body) => {
                let mut s = String::from_str("if (");
                s.append(e.to_string().as_str());
                s.append(") ");
                s.append(print_node(body).as_str());
                s
            },
            Node::While(e, body) => {
                let mut s = String::from_str("while (");
                s.append(e.to_string().as_str());
                s.append(") ");
                s.append(print_node(body).as_str());
                s
            },
            Node::For(f) => {
                let mut s = String::from_str("for (");
                s.append(f.var_name.as_str());
                s.append(" = ");
                s.append(f.start.to_string().as_str());
                s.append("; ");
                s.append(f.condition.to_string().as_str());
                s.append("; ");
                s.append(print_node(&f.increment).as_str());
                s.append(") ");
                s.append(print_node(&f.body).as_str());
                s
            },
            Node::Putchar(e) => {
                let mut s = String::from_str("putchar(");
                s.append(e.to_string().as_str());
                s.append(")");
                s
            },
            Node::MethodDecl(m) => {
                let mut s = String::from_str("method ");
                s.append(m.name.as_str());
                s.append("[");
                push_decimal(&mut s, m.id);
                s.append("](");
                let ghost head = s@;
                let ghost views = variable_views(m.parameters@);
                let ghost mut parts: Seq<Seq<char>> = Seq::empty();
                let mut i: usize = 0;
                while i < m.parameters.len()
                    invariant
                        i <= m.parameters.len(),
                        views == variable_views(m.parameters@),
                        parts == parameter_texts(views, i as nat),
                        parts.len() == i,
                        s@ == head + joined(parts, ", "@, i as nat),
                    decreases m.parameters.len() - i,
                {
                    let part = parameter(&m.parameters[i]);
                    push_part(&mut s, part.as_str(), i, Ghost(parts));
                    proof {
                        assert(parts.subrange(0, i as int) =~= parts);
                        assert(head + joined(parts, ", "@, i as nat) + (if i > 0 {
                            ", "@ + part@
                        } else {
                            part@
                        }) =~= head + (joined(parts, ", "@, i as nat) + (if i > 0 {
                            ", "@ + part@
                        } else {
                            part@
                        })));
                        parts = parts.push(part@);
                    }
                    i += 1;
                }
                s.append(") ");
                s.append(print_node(&m.body).as_str());
                s
            },
            Node::Return(e) => {
                let mut s = String::from_str("return ");
                s.append(e.to_string().as_str());
                s
            },
            Node::Invalid => String::from_str("Invalid"),
        }
    }
}

impl Node {
    /// The printed form of the statement.
    pub fn to_string(&self) -> (s: String)
        ensures
            s@ == node_text(self@),
    {
        print_node(self)
    }
}

} // verus!
