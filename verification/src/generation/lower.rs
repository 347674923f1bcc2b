//! Lowering of expressions and statements to intermediate assembly.
use vstd::prelude::*;
use vstd::string::StringExecFns;
use crate::bytecode::assemble;
use crate::bytecode::writing::{assembled, faithful, lemma_faithful};
use crate::error::{DSAsmError, ErrorKind, Failure, failure};
use crate::generation::{
    Cell, Failed, Generator, GeneratorState, bound_once, find_variable, kept_variables,
    lemma_bound_once, lemma_kept_variables_chain, lemma_mark_variable, no_temporaries,
    same_variables, variable_at,
};
use crate::generation::emit::addressable;
use crate::generation::labels::{distinct_labels, jumps_land, lemma_distinct_labels_check};
use crate::interpreter::{MemoryUnit, STACK_SIZE, check_labels};
use crate::parser::{
    BinaryOperator, Expr, ExprView, Node, NodeView, UnaryOperator, expr_view, node_view, node_views,
};
use crate::text::{decimal, push_decimal};
use crate::tokenizer::{Token, token_views};

verus! {

/// The failure for a variable that has no cell.
pub open spec fn unknown_variable(id: u64) -> Failure {
    failure(ErrorKind::Compiler, "Variable #"@ + decimal(id as nat) + " does not exist"@)
}

/// The failure for a variable that is declared a second time.
pub open spec fn duplicate_variable(id: u64) -> Failure {
    failure(ErrorKind::Compiler, "Variable #"@ + decimal(id as nat) + " already exists"@)
}

/// The failure for a reference to anything but a variable.
pub open spec fn unstable_address() -> Failure {
    failure(ErrorKind::Compiler, "Cannot reference an unstable address"@)
}

/// The failure for a construct that the generator does not lower.
pub open spec fn not_implemented() -> Failure {
    failure(ErrorKind::Compiler, "Not implemented"@)
}

/// A lowering step: the state after it and the cell that holds its result,
/// or the state at its failure and the failure.
pub type Lowered = Result<(GeneratorState, MemoryUnit), Failed>;

/// Every variable that `e` uses has exactly one cell.
#[verifier::opaque]
pub open spec fn all_bound(e: ExprView, cells: Seq<Cell>) -> bool
    decreases e,
{
    match e {
        ExprView::Literal(_) => true,
        ExprView::Variable(id) => bound_once(cells, id),
        ExprView::UserInput => true,
        ExprView::Reference(inner) => all_bound(*inner, cells),
        ExprView::Dereference(inner) => all_bound(*inner, cells),
        ExprView::MethodCall(_, args) => forall|i: int|
            0 <= i < args.len() ==> all_bound(#[trigger] args[i], cells),
        ExprView::Binary(left, _, right) => all_bound(*left, cells) && all_bound(*right, cells),
        ExprView::Unary(_, operand) => all_bound(*operand, cells),
    }
}

/// A new temporary that holds the greatest value of a cell less the cell at
/// `x`.
pub open spec fn complement(s: GeneratorState, x: MemoryUnit) -> Lowered {
    match s.take(Cell::Temporary) {
        Err(e) => Err(e),
        Ok((s1, temp)) => Ok((s1.clear(temp).add(MemoryUnit::MAX).mem_sub(temp, x), temp)),
    }
}

/// The lowering of a unary operator, applied to the cell at `x`, which the
/// code has moved to.
pub open spec fn lower_unary(s: GeneratorState, operator: UnaryOperator, x: MemoryUnit) -> Lowered {
    match operator {
        UnaryOperator::Not => Ok((s.invert(), x)),
        UnaryOperator::Bnot => complement(s, x),
        UnaryOperator::Negate => match complement(s, x) {
            Err(e) => Err(e),
            Ok((s1, temp)) => Ok((s1.goto(temp).add(1), temp)),
        },
    }
}

/// Two new temporaries that hold copies of the cells at `l` and at `r`; the
/// first is then reduced by the second.
pub open spec fn difference(s: GeneratorState, l: MemoryUnit, r: MemoryUnit) -> Lowered {
    match s.take(Cell::Temporary) {
        Err(e) => Err(e),
        Ok((s1, ltemp)) => match s1.take(Cell::Temporary) {
            Err(e) => Err(e),
            Ok((s2, rtemp)) => match s2.copy(ltemp, l) {
                Err(e) => Err(e),
                Ok(s3) => match s3.copy(rtemp, r) {
                    Err(e) => Err(e),
                    Ok(s4) => Ok((s4.mem_sub(ltemp, rtemp), ltemp)),
                },
            },
        },
    }
}

/// The lowering of a binary operator, applied to the cells at `l` and `r`.
pub open spec fn lower_binary(
    s: GeneratorState,
    operator: BinaryOperator,
    l: MemoryUnit,
    r: MemoryUnit,
) -> Lowered {
    match operator {
        BinaryOperator::Add => Ok((s.mem_add(l, r), l)),
        BinaryOperator::Sub => Ok((s.mem_sub(l, r), l)),
        BinaryOperator::Mult => Ok((s.goto(l).mul(r), l)),
        BinaryOperator::Div => Ok((s.goto(l).div(r), l)),
        BinaryOperator::Modulus => Ok((s.goto(l).div(r), r)),
        BinaryOperator::Equals => Ok((s.mem_sub(l, r).goto(l).invert(), l)),
        BinaryOperator::NotEquals => Ok((s.mem_sub(l, r).goto(l).reduce(), l)),
        BinaryOperator::Greater => Ok((s.compare(l, r).goto(l).sub(1).invert(), l)),
        BinaryOperator::Less => match difference(s, l, r) {
            Err(e) => Err(e),
            Ok((s1, ltemp)) => Ok((s1.compare(l, r).goto(l).sub(2).invert().mul(ltemp), l)),
        },
        BinaryOperator::Lessequ => Ok((s.compare(l, r).goto(l).sub(2).invert(), l)),
        BinaryOperator::Grequ => match difference(s, l, r) {
            Err(e) => Err(e),
            Ok((s1, ltemp)) => Ok(
                (
                    s1.goto(ltemp).invert().compare(l, r).goto(l).sub(1).invert().mem_add(
                        l,
                        ltemp,
                    ).goto(l).reduce(),
                    l,
                ),
            ),
        },
        BinaryOperator::ShiftL => Ok((s.goto(l).shift_left(r), l)),
        BinaryOperator::ShiftR => Ok((s.goto(l).shift_right(r), l)),
        BinaryOperator::Band => match complement(s, l) {
            Err(e) => Err(e),
            Ok((s1, not_left)) => match complement(s1, r) {
                Err(e) => Err(e),
                Ok((s2, not_right)) => complement(s2.or(not_left, not_right), not_left),
            },
        },
        BinaryOperator::Bor => Ok((s.or(l, r), l)),
        BinaryOperator::Bxor => Err((s, not_implemented())),
        BinaryOperator::And => Ok((s.goto(r).reduce().goto(l).reduce().mul(r), l)),
        BinaryOperator::Or => Ok((s.mem_add(l, r).goto(l).reduce(), l)),
    }
}

/// A new temporary, cleared, with the code moved to it.
pub open spec fn blank_temporary(s: GeneratorState) -> Lowered {
    match s.take(Cell::Temporary) {
        Err(e) => Err(e),
        Ok((s1, cell)) => Ok((s1.clear(cell).goto(cell), cell)),
    }
}

/// A new temporary that holds a copy of the variable `id`.
pub open spec fn load(s: GeneratorState, id: u64) -> Lowered {
    match s.take(Cell::Temporary) {
        Err(x) => Err(x),
        Ok((s1, cell)) => match find_variable(s1.cells, id, 0) {
            None => Err((s1, unknown_variable(id))),
            Some(ptr) => match s1.copy(cell, ptr as MemoryUnit) {
                Err(x) => Err(x),
                Ok(s2) => Ok((s2, cell)),
            },
        },
    }
}

/// A new temporary that holds the address of the variable `id`.
pub open spec fn address_of(s: GeneratorState, id: u64) -> Lowered {
    match s.take(Cell::Temporary) {
        Err(x) => Err(x),
        Ok((s1, cell)) => match find_variable(s1.cells, id, 0) {
            None => Err((s1, unknown_variable(id))),
            Some(ptr) => Ok((s1.clear(cell).goto(cell).add(ptr as MemoryUnit), cell)),
        },
    }
}

/// A new temporary that holds the cell whose address the cell at `ex`
/// holds.
pub open spec fn indirect(s: GeneratorState, ex: MemoryUnit) -> Lowered {
    match blank_temporary(s) {
        Err(x) => Err(x),
        Ok((s1, cell)) => Ok((s1.dereference(ex), cell)),
    }
}

/// The lowering of an expression: the code that leaves its value in a new
/// temporary.
pub open spec fn lower_expr(s: GeneratorState, e: ExprView) -> Lowered
    decreases e,
{
    match e {
        ExprView::Literal(n) => match blank_temporary(s) {
            Err(x) => Err(x),
            Ok((s1, cell)) => Ok((s1.add(n as MemoryUnit), cell)),
        },
        ExprView::Variable(id) => load(s, id),
        ExprView::UserInput => match blank_temporary(s) {
            Err(x) => Err(x),
            Ok((s1, cell)) => Ok((s1.getchar(), cell)),
        },
        ExprView::Reference(inner) => match *inner {
            ExprView::Variable(id) => address_of(s, id),
            _ => Err((s, unstable_address())),
        },
        ExprView::Dereference(inner) => match lower_expr(s, *inner) {
            Err(x) => Err(x),
            Ok((s1, ex)) => indirect(s1, ex),
        },
        ExprView::Unary(operator, operand) => match lower_expr(s, *operand) {
            Err(x) => Err(x),
            Ok((s1, x)) => lower_unary(s1.goto(x), operator, x),
        },
        ExprView::Binary(left, operator, right) => match lower_expr(s, *left) {
            Err(x) => Err(x),
            Ok((s1, l)) => match lower_expr(s1, *right) {
                Err(x) => Err(x),
                Ok((s2, r)) => lower_binary(s2, operator, l, r),
            },
        },
        ExprView::MethodCall(_, _) => Err((s, not_implemented())),
    }
}

/// The lowering of a statement.
pub open spec fn lower_node(s: GeneratorState, n: NodeView) -> Result<GeneratorState, Failed>
    decreases n, 0nat,
{
    match n {
        NodeView::Scope(nodes) => lower_nodes(s, nodes, 0),
        NodeView::VarDecl(id, e) => if find_variable(s.cells, id, 0) is Some {
            Err((s, duplicate_variable(id)))
        } else {
            match s.take(Cell::Used) {
                Err(x) => Err(x),
                Ok((s1, cell)) => match lower_expr(s1, e) {
                    Err(x) => Err(x),
                    Ok((s2, ex)) => match s2.copy(cell, ex) {
                        Err(x) => Err(x),
                        Ok(s3) => Ok(s3.mark(cell as int, Cell::Variable(id)).free_temps()),
                    },
                },
            }
        },
        NodeView::VarSet(id, e) => match find_variable(s.cells, id, 0) {
            None => Err((s, unknown_variable(id))),
            Some(i) => match lower_expr(s, e) {
                Err(x) => Err(x),
                Ok((s1, ex)) => match s1.copy(i as MemoryUnit, ex) {
                    Err(x) => Err(x),
                    Ok(s2) => Ok(s2.free_temps()),
                },
            },
        },
        NodeView::Putchar(e) => match lower_expr(s, e) {
            Err(x) => Err(x),
            Ok((s1, ex)) => Ok(s1.goto(ex).putchar().free_temps()),
        },
        _ => Err((s, not_implemented())),
    }
}

/// The lowering of the statements of a sequence from index `from` on, one
/// after the other.
pub open spec fn lower_nodes(s: GeneratorState, nodes: Seq<NodeView>, from: int) -> Result<
    GeneratorState,
    Failed,
>
    decreases nodes, (if from < nodes.len() { nodes.len() - from } else { 0 }),
{
    if from < 0 || from >= nodes.len() {
        Ok(s)
    } else {
        match lower_node(s, nodes[from]) {
            Err(x) => Err(x),
            Ok(s1) => lower_nodes(s1, nodes, from + 1),
        }
    }
}

/// The index of the first statement from `from` on whose lowering fails,
/// and the length of the sequence when none fails.
pub open spec fn first_failing(s: GeneratorState, nodes: Seq<NodeView>, from: int) -> int
    decreases nodes, (if from < nodes.len() { nodes.len() - from } else { 0 }),
{
    if from < 0 || from >= nodes.len() {
        nodes.len() as int
    } else {
        match lower_node(s, nodes[from]) {
            Err(_) => from,
            Ok(s1) => first_failing(s1, nodes, from + 1),
        }
    }
}

/// A variable that has one cell among `after` has one among `before` when
/// both hold the same variables.
pub proof fn lemma_bound_once_transfers(id: u64, before: Seq<Cell>, after: Seq<Cell>)
    requires
        same_variables(before, after),
        bound_once(after, id),
    ensures
        bound_once(before, id),
{
    reveal(bound_once);
    let i = choose|i: int| 0 <= i < after.len() && #[trigger] variable_at(after, i) == Some(id);
    assert(variable_at(before, i) == variable_at(after, i));
    assert forall|a: int, b: int|
        0 <= a < before.len() && 0 <= b < before.len() && #[trigger] variable_at(before, a)
            == Some(id) && #[trigger] variable_at(before, b) == Some(id) implies a == b by {
        assert(variable_at(before, a) == variable_at(after, a));
        assert(variable_at(before, b) == variable_at(after, b));
    }
}

/// What `all_bound` asks of the parts of an expression.
pub open spec fn parts_bound(e: ExprView, cells: Seq<Cell>) -> bool {
    match e {
        ExprView::Literal(_) => true,
        ExprView::Variable(id) => bound_once(cells, id),
        ExprView::UserInput => true,
        ExprView::Reference(inner) => all_bound(*inner, cells),
        ExprView::Dereference(inner) => all_bound(*inner, cells),
        ExprView::MethodCall(_, args) => forall|i: int|
            0 <= i < args.len() ==> all_bound(#[trigger] args[i], cells),
        ExprView::Binary(left, _, right) => all_bound(*left, cells) && all_bound(*right, cells),
        ExprView::Unary(_, operand) => all_bound(*operand, cells),
    }
}

/// An expression's variables are bound exactly when those of its parts are.
pub proof fn lemma_all_bound_parts(e: ExprView, cells: Seq<Cell>)
    ensures
        all_bound(e, cells) == parts_bound(e, cells),
{
    reveal(all_bound);
}

/// The variables that an expression uses have their cells among `before`
/// when they have them among `after` and both hold the same variables.
pub proof fn lemma_all_bound_transfers(e: ExprView, before: Seq<Cell>, after: Seq<Cell>)
    requires
        same_variables(before, after),
        all_bound(e, after),
    ensures
        all_bound(e, before),
    decreases e,
{
    reveal(all_bound);
    match e {
        ExprView::Literal(_) => {},
        ExprView::Variable(id) => {
            lemma_bound_once_transfers(id, before, after);
        },
        ExprView::UserInput => {},
        ExprView::Reference(inner) => {
            lemma_all_bound_transfers(*inner, before, after);
        },
        ExprView::Dereference(inner) => {
            lemma_all_bound_transfers(*inner, before, after);
        },
        ExprView::MethodCall(_, args) => {
            assert forall|i: int| 0 <= i < args.len() implies all_bound(
                #[trigger] args[i],
                before,
            ) by {
                lemma_all_bound_transfers(args[i], before, after);
            }
        },
        ExprView::Binary(left, _, right) => {
            lemma_all_bound_transfers(*left, before, after);
            lemma_all_bound_transfers(*right, before, after);
        },
        ExprView::Unary(_, operand) => {
            lemma_all_bound_transfers(*operand, before, after);
        },
    }
}

/// Holding the same variables carries over from one pair of states to the
/// next.
pub proof fn lemma_same_variables_chain(a: Seq<Cell>, b: Seq<Cell>, c: Seq<Cell>)
    requires
        same_variables(a, b),
        same_variables(b, c),
    ensures
        same_variables(a, c),
{
    assert forall|i: int| 0 <= i < a.len() implies #[trigger] variable_at(a, i) == variable_at(
        c,
        i,
    ) by {
        assert(variable_at(a, i) == variable_at(b, i));
        assert(variable_at(b, i) == variable_at(c, i));
    }
}

/// The error for the variable `id`, with the given ending of its message.
fn variable_error(id: u64, ending: &str) -> (e: DSAsmError)
    ensures
        e@ == failure(ErrorKind::Compiler, "Variable #"@ + decimal(id as nat) + ending@),
{
    let mut message = String::from_str("Variable #");
    push_decimal(&mut message, id);
    message.append(ending);
    DSAsmError::CompilerError(message)
}

/// The error for a construct that is not lowered.
fn not_implemented_error() -> (e: DSAsmError)
    ensures
        e@ == not_implemented(),
{
    DSAsmError::CompilerError(String::from_str("Not implemented"))
}

impl Generator {
    /// The address of the cell that holds the variable `id`.
    pub fn find_variable(&self, id: u64) -> (r: Option<MemoryUnit>)
        requires
            self.wf(),
        ensures
            match r {
                Some(address) => find_variable(self@.cells, id, 0) == Some(address as int)
                    && addressable(address) && variable_at(self@.cells, address as int) == Some(
                    id,
                ) && bound_once(self@.cells, id),
                None => find_variable(self@.cells, id, 0) is None && forall|i: int|
                    0 <= i < STACK_SIZE ==> #[trigger] variable_at(self@.cells, i) != Some(id),
            },
    {
        let mut i: usize = 0;
        while i < STACK_SIZE
            invariant
                i <= STACK_SIZE,
                self.wf(),
                find_variable(self@.cells, id, 0) == find_variable(self@.cells, id, i as int),
                forall|k: int| 0 <= k < i ==> #[trigger] variable_at(self@.cells, k) != Some(id),
            decreases STACK_SIZE - i,
        {
            if self.stack[i].is_variable_of_id(id) {
                reveal(bound_once);
                assert(variable_at(self@.cells, i as int) == Some(id));
                assert(self@.cells[i as int] != Cell::Unused);
                return Some(i as MemoryUnit);
            }
            i += 1;
        }
        None
    }

    /// Takes a new temporary, clears it and moves to it.
    fn blank_temporary(&mut self) -> (r: Result<MemoryUnit, DSAsmError>)
        requires
            old(self).wf(),
        ensures
            final(self).lowered(old(self), r, blank_temporary(old(self)@)),
    {
        let cell = self.take(Cell::Temporary)?;
        self.clear(cell);
        self.goto(cell);
        Ok(cell)
    }

    /// Takes a new temporary and fills it with the greatest value of a cell
    /// less the cell at `x`.
    fn complement(&mut self, x: MemoryUnit) -> (r: Result<MemoryUnit, DSAsmError>)
        requires
            old(self).wf(),
            addressable(x),
        ensures
            final(self).lowered(old(self), r, complement(old(self)@, x)),
    {
        let temp = self.take(Cell::Temporary)?;
        self.clear(temp);
        self.add(MemoryUnit::MAX);
        self.mem_sub(temp, x);
        Ok(temp)
    }

    /// Copies the cells at `l` and at `r` into two new temporaries and
    /// reduces the first by the second.
    fn difference(&mut self, l: MemoryUnit, r: MemoryUnit) -> (res: Result<MemoryUnit, DSAsmError>)
        requires
            old(self).wf(),
            addressable(l),
            addressable(r),
        ensures
            final(self).lowered(old(self), res, difference(old(self)@, l, r)),
    {
        let ltemp = self.take(Cell::Temporary)?;
        let ghost first = self@.cells;
        let rtemp = self.take(Cell::Temporary)?;
        let ghost second = self@.cells;
        proof {
            lemma_same_variables_chain(old(self)@.cells, first, second);
        }
        self.copy(ltemp, l)?;
        self.copy(rtemp, r)?;
        self.mem_sub(ltemp, rtemp);
        Ok(ltemp)
    }

    /// Applies a unary operator to the cell at `x`, which the code has moved
    /// to.
    fn generate_unary(&mut self, operator: UnaryOperator, x: MemoryUnit) -> (r: Result<
        MemoryUnit,
        DSAsmError,
    >)
        requires
            old(self).wf(),
            addressable(x),
        ensures
            final(self).lowered(old(self), r, lower_unary(old(self)@, operator, x)),
    {
        match operator {
            UnaryOperator::Not => {
                self.invert();
                Ok(x)
            },
            UnaryOperator::Bnot => self.complement(x),
            UnaryOperator::Negate => {
                let temp = self.complement(x)?;
                self.goto(temp);
                self.add(1);
                Ok(temp)
            },
        }
    }

    /// Applies a binary operator to the cells at `left` and `right`.
    fn generate_binary(&mut self, operator: BinaryOperator, left: MemoryUnit, right: MemoryUnit) -> (r:
        Result<MemoryUnit, DSAsmError>)
        requires
            old(self).wf(),
            addressable(left),
            addressable(right),
        ensures
            final(self).lowered(old(self), r, lower_binary(old(self)@, operator, left, right)),
    {
        match operator {
            BinaryOperator::Add => {
                self.mem_add(left, right);
                Ok(left)
            },
            BinaryOperator::Sub => {
                self.mem_sub(left, right);
                Ok(left)
            },
            BinaryOperator::Mult => {
                self.goto(left);
                self.mul(right);
                Ok(left)
            },
            BinaryOperator::Div => {
                self.goto(left);
                self.div(right);
                Ok(left)
            },
            BinaryOperator::Modulus => {
                self.goto(left);
                self.div(right);
                Ok(right)
            },
            BinaryOperator::Equals => {
                self.mem_sub(left, right);
                self.goto(left);
                self.invert();
                Ok(left)
            },
            BinaryOperator::NotEquals => {
                self.mem_sub(left, right);
                self.goto(left);
                self.reduce();
                Ok(left)
            },
            BinaryOperator::Greater => {
                self.compare(left, right);
                self.goto(left);
                self.sub(1);
                self.invert();
                Ok(left)
            },
            BinaryOperator::Less => {
                let ltemp = self.difference(left, right)?;
                self.compare(left, right);
                self.goto(left);
                self.sub(2);
                self.invert();
                self.mul(ltemp);
                Ok(left)
            },
            BinaryOperator::Lessequ => {
                self.compare(left, right);
                self.goto(left);
                self.sub(2);
                self.invert();
                Ok(left)
            },
            BinaryOperator::Grequ => {
                let ltemp = self.difference(left, right)?;
                self.goto(ltemp);
                self.invert();
                self.compare(left, right);
                self.goto(left);
                self.sub(1);
                self.invert();
                self.mem_add(left, ltemp);
                self.goto(left);
                self.reduce();
                Ok(left)
            },
            BinaryOperator::ShiftL => {
                self.goto(left);
                self.shift_left(right);
                Ok(left)
            },
            BinaryOperator::ShiftR => {
                self.goto(left);
                self.shift_right(right);
                Ok(left)
            },
            BinaryOperator::Band => {
                let not_left = self.complement(left)?;
                let ghost first = self@.cells;
                let not_right = self.complement(right)?;
                let ghost second = self@.cells;
                self.or(not_left, not_right);
                let r = self.complement(not_left);
                proof {
                    lemma_same_variables_chain(old(self)@.cells, first, second);
                    lemma_same_variables_chain(old(self)@.cells, second, self@.cells);
                }
                r
            },
            BinaryOperator::Bor => {
                self.or(left, right);
                Ok(left)
            },
            BinaryOperator::Bxor => Err(not_implemented_error()),
            BinaryOperator::And => {
                self.goto(right);
                self.reduce();
                self.goto(left);
                self.reduce();
                self.mul(right);
                Ok(left)
            },
            BinaryOperator::Or => {
                self.mem_add(left, right);
                self.goto(left);
                self.reduce();
                Ok(left)
            },
        }
    }

    /// Copies the variable `id` into a new temporary.
    fn load(&mut self, id: u64) -> (r: Result<MemoryUnit, DSAsmError>)
        requires
            old(self).wf(),
        ensures
            final(self).lowered(old(self), r, load(old(self)@, id)),
            r is Ok ==> bound_once(old(self)@.cells, id),
    {
        let cell = self.take(Cell::Temporary)?;
        let ghost marked = self@.cells;
        let ptr = match self.find_variable(id) {
            Some(ptr) => ptr,
            None => {
                return Err(variable_error(id, " does not exist"));
            },
        };
        proof {
            lemma_bound_once_transfers(id, old(self)@.cells, marked);
        }
        match self.copy(cell, ptr) {
            Ok(_) => Ok(cell),
            Err(e) => {
                proof {
                    lemma_same_variables_chain(old(self)@.cells, marked, self@.cells);
                }
                Err(e)
            },
        }
    }

    /// Puts the address of the variable `id` into a new temporary.
    fn address_of(&mut self, id: u64) -> (r: Result<MemoryUnit, DSAsmError>)
        requires
            old(self).wf(),
        ensures
            final(self).lowered(old(self), r, address_of(old(self)@, id)),
            r is Ok ==> bound_once(old(self)@.cells, id),
    {
        let cell = self.take(Cell::Temporary)?;
        let ghost marked = self@.cells;
        let ptr = match self.find_variable(id) {
            Some(ptr) => ptr,
            None => {
                return Err(variable_error(id, " does not exist"));
            },
        };
        proof {
            lemma_bound_once_transfers(id, old(self)@.cells, marked);
        }
        self.clear(cell);
        self.goto(cell);
        self.add(ptr);
        Ok(cell)
    }

    /// Loads into a new temporary the cell whose address the cell at `ex`
    /// holds.
    fn indirect(&mut self, ex: MemoryUnit) -> (r: Result<MemoryUnit, DSAsmError>)
        requires
            old(self).wf(),
            addressable(ex),
        ensures
            final(self).lowered(old(self), r, indirect(old(self)@, ex)),
    {
        let cell = self.blank_temporary()?;
        self.dereference(ex);
        Ok(cell)
    }

    /// Emits the code that computes an expression and leaves its value in a
    /// new temporary, whose address is the result.
    ///
    /// The call fails when no addressable cell is left, when the expression
    /// uses a variable that has no cell, takes the address of anything but
    /// a variable, calls a method or uses `^`. When it succeeds, every
    /// variable that the expression uses had exactly one cell.
    pub fn generate_expr(&mut self, expr: &Expr) -> (r: Result<MemoryUnit, DSAsmError>)
        requires
            old(self).wf(),
        ensures
            final(self).lowered(old(self), r, lower_expr(old(self)@, expr@)),
            r is Ok ==> all_bound(expr@, old(self)@.cells),
        decreases expr,
    {
        proof {
            lemma_all_bound_parts(expr@, self@.cells);
        }
        match expr {
            Expr::Literal(l) => {
                let cell = self.blank_temporary()?;
                self.add(*l as MemoryUnit);
                Ok(cell)
            },
            Expr::Variable(id) => {
                self.load(*id)
            },
            Expr::UserInput => {
                let cell = self.blank_temporary()?;
                self.getchar();
                Ok(cell)
            },
            Expr::Reference(ex) => {
                match &**ex {
                    Expr::Variable(id) => {
                        assert(expr_view(**ex) == ExprView::Variable(*id));
                        proof {
                            lemma_all_bound_parts(expr_view(**ex), self@.cells);
                        }
                        self.address_of(*id)
                    },
                    _ => {
                        assert(!(expr_view(**ex) is Variable));
                        Err(
                            DSAsmError::CompilerError(
                                String::from_str("Cannot reference an unstable address"),
                            ),
                        )
                    },
                }
            },
            Expr::Dereference(ex) => {
                let ex = self.generate_expr(&**ex)?;
                let ghost inner = self@.cells;
                let r = self.indirect(ex);
                proof {
                    lemma_same_variables_chain(old(self)@.cells, inner, self@.cells);
                }
                r
            },
            Expr::Unary(unary) => {
                let x = self.generate_expr(&*unary.right)?;
                let ghost inner = self@.cells;
                self.goto(x);
                let r = self.generate_unary(unary.operator, x);
                proof {
                    lemma_same_variables_chain(old(self)@.cells, inner, self@.cells);
                }
                r
            },
            Expr::Binary(bin) => {
                let left = self.generate_expr(&*bin.left)?;
                let ghost first = self@.cells;
                let right = match self.generate_expr(&*bin.right) {
                    Ok(right) => right,
                    Err(e) => {
                        proof {
                            lemma_same_variables_chain(old(self)@.cells, first, self@.cells);
                        }
                        return Err(e);
                    },
                };
                let ghost second = self@.cells;
                let r = self.generate_binary(bin.operator, left, right);
                proof {
                    lemma_same_variables_chain(old(self)@.cells, first, second);
                    lemma_same_variables_chain(old(self)@.cells, second, self@.cells);
                    lemma_all_bound_transfers(expr_view(*bin.right), old(self)@.cells, first);
                }
                r
            },
            Expr::MethodCall(_id, _params) => Err(not_implemented_error()),
        }
    }

    /// `self` is what `before` becomes by lowering the statement `node`,
    /// which is not a scope, with the result `r`.
    pub open spec fn stated(&self, before: &Generator, node: NodeView, r: Result<(), DSAsmError>)
        -> bool {
        &&& self.wf()
        &&& self.nodes() == before.nodes()
        &&& self.position() == before.position()
        &&& match r {
            Ok(_) => lower_node(before@, node) == Ok::<GeneratorState, Failed>(self@),
            Err(e) => lower_node(before@, node) == Err::<GeneratorState, Failed>((self@, e@)),
        }
        &&& r is Ok ==> no_temporaries(self@.cells)
        &&& r is Ok && before@.reads() ==> self@.reads()
        &&& r is Ok && before@.tidy() ==> self@.tidy()
        &&& r is Ok && before@.reads() && before@.tracks() ==> self@.tracks()
        &&& r is Ok ==> kept_variables(before@.cells, self@.cells)
        &&& r is Ok ==> (node matches NodeView::VarDecl(id, _) ==> bound_once(self@.cells, id))
        &&& r is Ok ==> (node matches NodeView::VarSet(id, _) ==> bound_once(self@.cells, id))
    }

    /// Emits the code of the declaration of the variable `id`.
    fn declare(&mut self, id: u64, expr: &Expr) -> (r: Result<(), DSAsmError>)
        requires
            old(self).wf(),
        ensures
            final(self).stated(old(self), NodeView::VarDecl(id, expr@), r),
    {
        if self.find_variable(id).is_some() {
            return Err(variable_error(id, " already exists"));
        }
        let cell = self.take(Cell::Used)?;
        let ghost taken = self@.cells;
        let ex = self.generate_expr(expr)?;
        let ghost lowered = self@.cells;
        self.copy(cell, ex)?;
        proof {
            lemma_same_variables_chain(old(self)@.cells, taken, lowered);
            lemma_same_variables_chain(old(self)@.cells, lowered, self@.cells);
            assert forall|i: int| 0 <= i < STACK_SIZE implies #[trigger] variable_at(
                self@.cells,
                i,
            ) != Some(id) by {
                assert(variable_at(old(self)@.cells, i) == variable_at(self@.cells, i));
            }
            lemma_mark_variable(self@, cell as int, id);
        }
        let ghost copied = self@.cells;
        self.stack.set(cell as usize, Cell::Variable(id));
        let ghost bound = self@.cells;
        self.free_temps();
        proof {
            assert(variable_at(bound, cell as int) == Some(id));
            assert(variable_at(self@.cells, cell as int) == variable_at(bound, cell as int));
            lemma_bound_once(self@, cell as int, id);
            assert forall|i: int|
                0 <= i < STACK_SIZE && (#[trigger] variable_at(old(self)@.cells, i))
                    is Some implies variable_at(self@.cells, i) == variable_at(
                old(self)@.cells,
                i,
            ) by {
                assert(variable_at(copied, i) == variable_at(old(self)@.cells, i));
                assert(variable_at(bound, i) == variable_at(self@.cells, i));
            }
        }
        Ok(())
    }

    /// Emits the code of an assignment to the variable `id`.
    fn assign(&mut self, id: u64, expr: &Expr) -> (r: Result<(), DSAsmError>)
        requires
            old(self).wf(),
        ensures
            final(self).stated(old(self), NodeView::VarSet(id, expr@), r),
    {
        let i = match self.find_variable(id) {
            Some(i) => i,
            None => {
                return Err(variable_error(id, " does not exist"));
            },
        };
        let ghost found = self@.cells;
        let ex = self.generate_expr(expr)?;
        let ghost lowered = self@.cells;
        self.copy(i, ex)?;
        let ghost copied = self@.cells;
        self.free_temps();
        proof {
            lemma_same_variables_chain(found, lowered, copied);
            lemma_same_variables_chain(found, copied, self@.cells);
            assert(variable_at(self@.cells, i as int) == variable_at(found, i as int));
            lemma_bound_once(self@, i as int, id);
        }
        Ok(())
    }

    /// Emits the code that writes the value of an expression.
    fn write(&mut self, expr: &Expr) -> (r: Result<(), DSAsmError>)
        requires
            old(self).wf(),
        ensures
            final(self).stated(old(self), NodeView::Putchar(expr@), r),
    {
        let ex = self.generate_expr(expr)?;
        let ghost lowered = self@.cells;
        self.goto(ex);
        self.putchar();
        self.free_temps();
        proof {
            lemma_same_variables_chain(old(self)@.cells, lowered, self@.cells);
        }
        Ok(())
    }

    /// Emits the code of a statement.
    ///
    /// A scope lowers its statements in turn. A declaration takes a cell,
    /// lowers its expression, copies the result into the cell and binds the
    /// cell to the variable; an assignment copies into the variable's cell;
    /// `putchar` writes the result. Each of the three then frees every
    /// temporary. The other statements are not lowered and fail, as do a
    /// declaration of a variable that has a cell and an assignment to one
    /// that has none.
    ///
    /// When the call succeeds on a generator without temporaries, it leaves
    /// none. When it succeeds, every variable that had a cell has it still,
    /// and the variable of a declaration or an assignment has exactly one
    /// cell.
    pub fn generate(&mut self, node: &Node) -> (r: Result<(), DSAsmError>)
        requires
            old(self).wf(),
        ensures
            final(self).wf(),
            final(self).nodes() == old(self).nodes(),
            final(self).position() == old(self).position(),
            match r {
                Ok(_) => lower_node(old(self)@, node@) == Ok::<GeneratorState, Failed>(
                    final(self)@,
                ),
                Err(e) => lower_node(old(self)@, node@) == Err::<GeneratorState, Failed>(
                    (final(self)@, e@),
                ),
            },
            r is Ok && no_temporaries(old(self)@.cells) ==> no_temporaries(final(self)@.cells),
            r is Ok && !(node is Scope) ==> no_temporaries(final(self)@.cells),
            r is Ok && old(self)@.reads() ==> final(self)@.reads(),
            r is Ok && old(self)@.tidy() ==> final(self)@.tidy(),
            r is Ok && old(self)@.reads() && old(self)@.tracks() ==> final(self)@.tracks(),
            r is Ok ==> kept_variables(old(self)@.cells, final(self)@.cells),
            r is Ok ==> (node@ matches NodeView::VarDecl(id, _) ==> bound_once(
                final(self)@.cells,
                id,
            )),
            r is Ok ==> (node@ matches NodeView::VarSet(id, _) ==> bound_once(
                final(self)@.cells,
                id,
            )),
        decreases node,
    {
        match node {
            Node::Scope(scope) => {
                let ghost views = node@->Scope_0;
                let mut i: usize = 0;
                while i < scope.len()
                    invariant
                        i <= scope.len(),
                        *node == Node::Scope(*scope),
                        views.len() == scope@.len(),
                        forall|k: int| 0 <= k < views.len() ==> views[k] == node_view(scope@[k]),
                        self.wf(),
                        self.nodes() == old(self).nodes(),
                        self.position() == old(self).position(),
                        lower_node(old(self)@, node@) == lower_nodes(self@, views, i as int),
                        no_temporaries(old(self)@.cells) ==> no_temporaries(self@.cells),
                        old(self)@.reads() ==> self@.reads(),
                        old(self)@.tidy() ==> self@.tidy(),
                        old(self)@.reads() && old(self)@.tracks() ==> self@.tracks(),
                        kept_variables(old(self)@.cells, self@.cells),
                    decreases scope.len() - i,
                {
                    let ghost before = self@.cells;
                    self.generate(&scope[i])?;
                    proof {
                        lemma_kept_variables_chain(old(self)@.cells, before, self@.cells);
                    }
                    i += 1;
                }
                Ok(())
            },
            Node::VarDecl(id, expr) => self.declare(*id, expr),
            Node::VarSet(id, expr) => self.assign(*id, expr),
            Node::Putchar(expr) => self.write(expr),
            _ => Err(not_implemented_error()),
        }
    }

    /// Lowers the nodes that are left, in order, and hands out a copy of all
    /// the code emitted so far. It stops at the first node whose lowering
    /// fails, with that node passed. The code can be assembled, and the
    /// instructions that it assembles to are canonical and written as this
    /// very code, provided that the same held of what had been emitted
    /// before; it holds of a new generator, which has emitted nothing. The
    /// labels of these instructions are then all different, so that the
    /// interpreter accepts them, and every jump among them names a label
    /// that one of them defines.
    pub fn generate_all(&mut self) -> (r: Result<Vec<Token>, DSAsmError>)
        requires
            old(self).wf(),
        ensures
            final(self).wf(),
            final(self).nodes() == old(self).nodes(),
            match r {
                Ok(tokens) => {
                    &&& lower_nodes(old(self)@, old(self).nodes(), old(self).position() as int)
                        == Ok::<GeneratorState, Failed>(final(self)@)
                    &&& token_views(tokens@) == final(self)@.output
                    &&& final(self).position() == final(self).nodes().len()
                },
                Err(e) => {
                    &&& lower_nodes(old(self)@, old(self).nodes(), old(self).position() as int)
                        == Err::<GeneratorState, Failed>((final(self)@, e@))
                    &&& e@.kind == ErrorKind::Compiler
                    &&& final(self).position() == first_failing(
                        old(self)@,
                        old(self).nodes(),
                        old(self).position() as int,
                    ) + 1
                },
            },
            r is Ok && no_temporaries(old(self)@.cells) ==> no_temporaries(final(self)@.cells),
            r is Ok ==> kept_variables(old(self)@.cells, final(self)@.cells),
            r is Ok && old(self)@.reads() && old(self)@.tracks() ==> final(self)@.tracks(),
            r is Ok && old(self)@.reads() ==> faithful(token_views(r->Ok_0@)) && assemble(
                token_views(r->Ok_0@),
            ) is Ok,
            r is Ok && old(self)@.tidy() ==> {
                &&& check_labels(assemble(token_views(r->Ok_0@))->Ok_0) is Ok
                &&& distinct_labels(assemble(token_views(r->Ok_0@))->Ok_0)
                &&& jumps_land(assemble(token_views(r->Ok_0@))->Ok_0)
            },
    {
        let mut nodes: Vec<Node> = Vec::new();
        core::mem::swap(&mut nodes, &mut self.nodes);
        let mut index: usize = self.position;
        self.position = 0;
        let ghost views = node_views(nodes@);
        let ghost start = old(self).position() as int;
        let mut failed: Option<DSAsmError> = None;
        while failed.is_none() && index < nodes.len()
            invariant
                views == node_views(nodes@),
                views == old(self).nodes(),
                self.wf(),
                index <= nodes@.len(),
                start == old(self).position(),
                match failed {
                    None => first_failing(old(self)@, views, start) == first_failing(
                        self@,
                        views,
                        index as int,
                    ),
                    Some(_) => first_failing(old(self)@, views, start) + 1 == index,
                },
                failed is None && old(self)@.reads() && old(self)@.tracks() ==> self@.tracks(),
                match failed {
                    None => lower_nodes(old(self)@, views, old(self).position() as int)
                        == lower_nodes(self@, views, index as int) && (no_temporaries(
                        old(self)@.cells,
                    ) ==> no_temporaries(self@.cells)) && (old(self)@.reads() ==> self@.reads())
                        && (old(self)@.tidy() ==> self@.tidy()) && kept_variables(
                        old(self)@.cells,
                        self@.cells,
                    ),
                    Some(e) => lower_nodes(old(self)@, views, old(self).position() as int) == Err::<
                        GeneratorState,
                        Failed,
                    >((self@, e@)) && e@.kind == ErrorKind::Compiler,
                },
            decreases
                (if failed is None {
                    nodes@.len() - index
                } else {
                    0
                }),
        {
            let ghost before = self@;
            match self.generate(&nodes[index]) {
                Ok(_) => {
                    proof {
                        lemma_kept_variables_chain(old(self)@.cells, before.cells, self@.cells);
                    }
                    index += 1;
                },
                Err(e) => {
                    proof {
                        lemma_lowering_failure_kind(before, views[index as int]);
                    }
                    failed = Some(e);
                    index += 1;
                },
            }
        }
        core::mem::swap(&mut nodes, &mut self.nodes);
        self.position = index;
        match failed {
            Some(e) => Err(e),
            None => {
                let mut tokens: Vec<Token> = Vec::new();
                let mut i: usize = 0;
                while i < self.output.len()
                    invariant
                        i <= self.output.len(),
                        tokens@ == self.output@.subrange(0, i as int),
                    decreases self.output.len() - i,
                {
                    tokens.push(self.output[i].clone());
                    assert(tokens@ =~= self.output@.subrange(0, i + 1));
                    i += 1;
                }
                assert(self.output@.subrange(0, self.output.len() as int) =~= self.output@);
                proof {
                    reveal(assembled);
                    if self@.reads() {
                        lemma_faithful(self@.output);
                    }
                    if self@.tidy() {
                        lemma_distinct_labels_check(self@.program());
                    }
                }
                Ok(tokens)
            },
        }
    }
}

/// Lowering fails only with an error of the compiler.
pub proof fn lemma_lowering_failure_kind(s: GeneratorState, n: NodeView)
    ensures
        lower_node(s, n) matches Err(e) ==> e.1.kind == ErrorKind::Compiler,
    decreases n, 0nat,
{
    match n {
        NodeView::Scope(nodes) => {
            lemma_sequence_failure_kind(s, nodes, 0);
        },
        NodeView::VarDecl(id, e) => {
            if find_variable(s.cells, id, 0) is None {
                match s.take(Cell::Used) {
                    Err(x) => {},
                    Ok((s1, cell)) => {
                        lemma_expr_failure_kind(s1, e);
                    },
                }
            }
        },
        NodeView::VarSet(id, e) => {
            lemma_expr_failure_kind(s, e);
        },
        NodeView::Putchar(e) => {
            lemma_expr_failure_kind(s, e);
        },
        _ => {},
    }
}

/// Lowering a sequence fails only with an error of the compiler.
pub proof fn lemma_sequence_failure_kind(s: GeneratorState, nodes: Seq<NodeView>, from: int)
    ensures
        lower_nodes(s, nodes, from) matches Err(e) ==> e.1.kind == ErrorKind::Compiler,
    decreases nodes, (if from < nodes.len() { nodes.len() - from } else { 0 }),
{
    if 0 <= from < nodes.len() {
        lemma_lowering_failure_kind(s, nodes[from]);
        match lower_node(s, nodes[from]) {
            Err(x) => {},
            Ok(s1) => {
                lemma_sequence_failure_kind(s1, nodes, from + 1);
            },
        }
    }
}

/// Lowering an expression fails only with an error of the compiler.
pub proof fn lemma_expr_failure_kind(s: GeneratorState, e: ExprView)
    ensures
        lower_expr(s, e) matches Err(x) ==> x.1.kind == ErrorKind::Compiler,
    decreases e,
{
    match e {
        ExprView::Dereference(inner) => {
            lemma_expr_failure_kind(s, *inner);
        },
        ExprView::Unary(_, operand) => {
            lemma_expr_failure_kind(s, *operand);
        },
        ExprView::Binary(left, _, right) => {
            lemma_expr_failure_kind(s, *left);
            match lower_expr(s, *left) {
                Err(x) => {},
                Ok((s1, l)) => {
                    lemma_expr_failure_kind(s1, *right);
                },
            }
        },
        _ => {},
    }
}

} // verus!
