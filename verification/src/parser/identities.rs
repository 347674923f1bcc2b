//! The identities that a parsed program declares are all distinct.
use vstd::prelude::*;
use crate::parser::{
    Env, NodeView, VariableView, is_at, parse_for, parse_items, parse_method, parse_node,
    parse_params, parse_program, parse_top, parse_value, remaining,
};
use crate::tokenizer::{Token, TokenView, token_at};

verus! {

/// The identities of a sequence of variables.
pub open spec fn variable_ids(vars: Seq<VariableView>) -> Seq<u64> {
    vars.map_values(|v: VariableView| v.id)
}

/// The identities that a node declares, in the order in which the parser
/// hands them out: those of declared variables, of parameters and of
/// methods.
pub open spec fn declared(n: NodeView) -> Seq<u64>
    decreases n, 0nat,
{
    match n {
        NodeView::Scope(items) => declared_among(items, items.len()),
        NodeView::VarDecl(id, _) => seq![id],
        NodeView::If(_, body) => declared(*body),
        NodeView::While(_, body) => declared(*body),
        NodeView::For { increment, body, .. } => declared(*increment) + declared(*body),
        NodeView::MethodDecl { id, parameters, body, .. } => variable_ids(parameters) + declared(
            *body,
        ) + seq![id],
        _ => Seq::empty(),
    }
}

/// The identities that the first `count` nodes of a sequence declare.
pub open spec fn declared_among(nodes: Seq<NodeView>, count: nat) -> Seq<u64>
    decreases nodes, count,
{
    if count == 0 || count > nodes.len() {
        Seq::empty()
    } else {
        declared_among(nodes, (count - 1) as nat) + declared(nodes[count - 1])
    }
}

/// The identities that a sequence of nodes declares.
pub open spec fn declared_all(nodes: Seq<NodeView>) -> Seq<u64> {
    declared_among(nodes, nodes.len())
}

/// The identities lie from `lo` up to, but not including, `hi` and grow
/// strictly.
pub open spec fn ascending(ids: Seq<u64>, lo: nat, hi: nat) -> bool {
    &&& lo <= hi
    &&& forall|i: int| 0 <= i < ids.len() ==> lo <= #[trigger] ids[i] < hi
    &&& forall|i: int, j: int| 0 <= i < j < ids.len() ==> #[trigger] ids[i] < #[trigger] ids[j]
}

/// Identities that grow strictly are distinct.
pub proof fn lemma_ascending_distinct(ids: Seq<u64>, lo: nat, hi: nat)
    requires
        ascending(ids, lo, hi),
    ensures
        ids.no_duplicates(),
{
    assert forall|i: int, j: int| 0 <= i < ids.len() && 0 <= j < ids.len() && i != j implies ids[i]
        != ids[j] by {
        if i < j {
            assert(ids[i] < ids[j]);
        } else {
            assert(ids[j] < ids[i]);
        }
    }
}

/// Two ascending runs, one after the other, make an ascending run.
pub proof fn lemma_ascending_joined(a: Seq<u64>, b: Seq<u64>, lo: nat, mid: nat, hi: nat)
    requires
        ascending(a, lo, mid),
        ascending(b, mid, hi),
    ensures
        ascending(a + b, lo, hi),
{
    let c = a + b;
    assert forall|i: int| 0 <= i < c.len() implies lo <= #[trigger] c[i] < hi by {
        if i < a.len() {
            assert(c[i] == a[i]);
        } else {
            assert(c[i] == b[i - a.len()]);
        }
    }
    assert forall|i: int, j: int| 0 <= i < j < c.len() implies #[trigger] c[i] < #[trigger] c[j] by {
        if j < a.len() {
            assert(c[i] == a[i] && c[j] == a[j]);
        } else if i < a.len() {
            assert(c[i] == a[i] && c[j] == b[j - a.len()]);
        } else {
            assert(c[i] == b[i - a.len()] && c[j] == b[j - a.len()]);
        }
    }
}

/// What the first nodes of a sequence declare does not depend on the nodes
/// after them.
pub proof fn lemma_declared_prefix(nodes: Seq<NodeView>, longer: Seq<NodeView>, count: nat)
    requires
        count <= nodes.len() <= longer.len(),
        forall|i: int| 0 <= i < nodes.len() ==> nodes[i] == longer[i],
    ensures
        declared_among(longer, count) == declared_among(nodes, count),
    decreases count,
{
    if count > 0 {
        lemma_declared_prefix(nodes, longer, (count - 1) as nat);
    }
}

/// A sequence with one more node declares what it declared before and then
/// what the node declares.
pub proof fn lemma_declared_pushed(nodes: Seq<NodeView>, last: NodeView)
    ensures
        declared_all(nodes.push(last)) == declared_all(nodes) + declared(last),
{
    lemma_declared_prefix(nodes, nodes.push(last), nodes.len());
}

/// What parsing adds to the identities: `after` has handed out no fewer
/// identities than `before`, and unless they have run out, the identities
/// `ids` lie from `lo` on and below those of `after`, and grow strictly.
pub open spec fn hands_out(before: Env, after: Env, ids: Seq<u64>, lo: nat) -> bool {
    &&& before.next_id <= after.next_id
    &&& after.next_id <= u64::MAX ==> ascending(ids, lo, after.next_id)
}

/// The identities that a statement declares are those that parsing it
/// hands out, in order.
pub proof fn lemma_node_ids(tokens: Seq<TokenView>, pos: int, env: Env)
    ensures
        parse_node(tokens, pos, env) matches Ok(p) ==> hands_out(
            env,
            p.env,
            declared(p.value),
            env.next_id,
        ),
    decreases remaining(tokens, pos), 3nat,
{
    match token_at(tokens, pos) {
        TokenView::Plain(Token::OpenCurly) => {
            lemma_items_ids(tokens, pos + 1, env, Seq::empty(), env.next_id);
        },
        TokenView::Plain(Token::For) => {
            match token_at(tokens, pos + 2) {
                TokenView::Identifier(name) => {
                    lemma_for_ids(tokens, pos, env, name);
                },
                _ => {},
            }
        },
        TokenView::Plain(Token::If) | TokenView::Plain(Token::While) => {
            match parse_value(tokens, pos + 1, env) {
                Err(e) => {},
                Ok((condition, more)) => {
                    lemma_node_ids(tokens, pos + 2 + more, env);
                },
            }
        },
        _ => {},
    }
}

/// The identities that a `for` loop declares are those that parsing its
/// increment and its body hands out, in order.
pub proof fn lemma_for_ids(tokens: Seq<TokenView>, pos: int, env: Env, name: Seq<char>)
    ensures
        parse_for(tokens, pos, env, name) matches Ok(p) ==> hands_out(
            env,
            p.env,
            declared(p.value),
            env.next_id,
        ),
    decreases remaining(tokens, pos), 2nat,
{
    let inner = env.declare(name);
    if 0 <= pos < tokens.len() {
        match parse_value(tokens, pos + 4, inner) {
            Err(e) => {},
            Ok((start, first)) => {
                match parse_value(tokens, pos + 6 + first, inner) {
                    Err(e) => {},
                    Ok((condition, second)) => {
                        lemma_node_ids(tokens, pos + 8 + first + second, inner);
                        match parse_node(tokens, pos + 8 + first + second, inner) {
                            Err(e) => {},
                            Ok(increment) => {
                                let close = pos + 9 + first + second + increment.more;
                                lemma_node_ids(tokens, close + 1, increment.env);
                                match parse_node(tokens, close + 1, increment.env) {
                                    Err(e) => {},
                                    Ok(body) => {
                                        if body.env.next_id <= u64::MAX {
                                            lemma_ascending_joined(
                                                declared(increment.value),
                                                declared(body.value),
                                                inner.next_id,
                                                increment.env.next_id,
                                                body.env.next_id,
                                            );
                                        }
                                    },
                                }
                            },
                        }
                    },
                }
            },
        }
    }
}

/// The identities that the statements of a scope declare are those that
/// parsing them hands out, in order, after those of the statements `done`.
pub proof fn lemma_items_ids(
    tokens: Seq<TokenView>,
    pos: int,
    env: Env,
    done: Seq<NodeView>,
    lo: nat,
)
    requires
        lo <= env.next_id,
        env.next_id <= u64::MAX ==> ascending(declared_all(done), lo, env.next_id),
    ensures
        parse_items(tokens, pos, env, done) matches Ok(p) ==> hands_out(
            env,
            p.env,
            declared_all(p.value),
            lo,
        ),
    decreases remaining(tokens, pos), 4nat,
{
    if 0 <= pos < tokens.len() && tokens[pos] != TokenView::Plain(Token::CloseCurly) {
        lemma_node_ids(tokens, pos, env);
        match parse_node(tokens, pos, env) {
            Err(e) => {},
            Ok(item) => {
                lemma_declared_pushed(done, item.value);
                if item.env.next_id <= u64::MAX {
                    lemma_ascending_joined(
                        declared_all(done),
                        declared(item.value),
                        lo,
                        env.next_id,
                        item.env.next_id,
                    );
                }
                lemma_items_ids(
                    tokens,
                    pos + 1 + item.more,
                    item.env,
                    done.push(item.value),
                    lo,
                );
            },
        }
    }
}

/// The identities of the parameters of a method are those that parsing them
/// hands out, in order, after those of the parameters `done`.
pub proof fn lemma_params_ids(
    tokens: Seq<TokenView>,
    pos: int,
    env: Env,
    done: Seq<VariableView>,
    lo: nat,
)
    requires
        lo <= env.next_id,
        env.next_id <= u64::MAX ==> ascending(variable_ids(done), lo, env.next_id),
    ensures
        parse_params(tokens, pos, env, done) matches Ok(p) ==> hands_out(
            env,
            p.env,
            variable_ids(p.value),
            lo,
        ),
    decreases remaining(tokens, pos),
{
    if 0 <= pos < tokens.len() && tokens[pos] != TokenView::Plain(Token::CloseParen) && !(done.len()
        > 0 && tokens[pos] != TokenView::Plain(Token::Comma)) {
        let comma: nat = if done.len() > 0 {
            1
        } else {
            0
        };
        match token_at(tokens, pos + comma) {
            TokenView::Identifier(name) => {
                let var = VariableView { name, id: env.next_id as u64 };
                assert(variable_ids(done.push(var)) =~= variable_ids(done) + seq![var.id]);
                if env.next_id + 1 <= u64::MAX {
                    lemma_ascending_joined(
                        variable_ids(done),
                        seq![var.id],
                        lo,
                        env.next_id,
                        env.next_id + 1,
                    );
                }
                lemma_params_ids(tokens, pos + comma + 1, env.declare(name), done.push(var), lo);
            },
            _ => {},
        }
    }
}

/// The identities that a method declares are those that parsing it hands
/// out, in order: its parameters', its body's, its own.
pub proof fn lemma_method_ids(tokens: Seq<TokenView>, pos: int, env: Env)
    ensures
        parse_method(tokens, pos, env) matches Ok(p) ==> hands_out(
            env,
            p.env,
            declared(p.value),
            env.next_id,
        ),
{
    reveal(parse_method);
    match token_at(tokens, pos + 1) {
        TokenView::Identifier(name) => {
            if is_at(tokens, pos + 2, Token::OpenParen) {
                assert(variable_ids(Seq::<VariableView>::empty()) =~= Seq::<u64>::empty());
                lemma_params_ids(tokens, pos + 3, env, Seq::empty(), env.next_id);
                match parse_params(tokens, pos + 3, env, Seq::empty()) {
                    Err(e) => {},
                    Ok(parameters) => {
                        lemma_node_ids(tokens, pos + 4 + parameters.more, parameters.env);
                        match parse_node(tokens, pos + 4 + parameters.more, parameters.env) {
                            Err(e) => {},
                            Ok(body) => {
                                if body.env.next_id + 1 <= u64::MAX {
                                    let id = body.env.next_id as u64;
                                    lemma_ascending_joined(
                                        variable_ids(parameters.value),
                                        declared(body.value),
                                        env.next_id,
                                        parameters.env.next_id,
                                        body.env.next_id,
                                    );
                                    lemma_ascending_joined(
                                        variable_ids(parameters.value) + declared(body.value),
                                        seq![id],
                                        env.next_id,
                                        body.env.next_id,
                                        body.env.next_id + 1,
                                    );
                                }
                            },
                        }
                    },
                }
            }
        },
        _ => {},
    }
}

/// The identities that the nodes of a program declare are those that
/// parsing them hands out, in order, after those of the nodes `done`.
pub proof fn lemma_program_ids(
    tokens: Seq<TokenView>,
    pos: int,
    env: Env,
    done: Seq<NodeView>,
    lo: nat,
)
    requires
        lo <= env.next_id,
        env.next_id <= u64::MAX ==> ascending(declared_all(done), lo, env.next_id),
    ensures
        parse_program(tokens, pos, env, done) matches Ok(p) ==> hands_out(
            env,
            p.env,
            declared_all(p.value),
            lo,
        ),
    decreases remaining(tokens, pos),
{
    if 0 <= pos < tokens.len() {
        reveal(parse_top);
        lemma_node_ids(tokens, pos, env);
        lemma_method_ids(tokens, pos, env);
        match parse_top(tokens, pos, env) {
            Err(e) => {},
            Ok(node) => {
                lemma_declared_pushed(done, node.value);
                if node.env.next_id <= u64::MAX {
                    lemma_ascending_joined(
                        declared_all(done),
                        declared(node.value),
                        lo,
                        env.next_id,
                        node.env.next_id,
                    );
                }
                lemma_program_ids(
                    tokens,
                    pos + 1 + node.more,
                    node.env,
                    done.push(node.value),
                    lo,
                );
            },
        }
    }
}

/// The identities that a parsed program declares are all distinct, as long
/// as they have not run out.
pub proof fn lemma_identities_distinct(tokens: Seq<TokenView>, pos: int, env: Env)
    ensures
        parse_program(tokens, pos, env, Seq::empty()) matches Ok(p) ==> (p.env.next_id <= u64::MAX
            ==> declared_all(p.value).no_duplicates()),
{
    lemma_program_ids(tokens, pos, env, Seq::empty(), env.next_id);
    match parse_program(tokens, pos, env, Seq::empty()) {
        Err(e) => {},
        Ok(p) => {
            if p.env.next_id <= u64::MAX {
                lemma_ascending_distinct(declared_all(p.value), env.next_id, p.env.next_id);
            }
        },
    }
}

} // verus!
