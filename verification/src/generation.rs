//! The code generator: it lays variables and temporaries out over a fixed
//! array of cells and lowers the syntax tree to intermediate assembly.
//!
//! The generator is stated against a model: `GeneratorState` holds what the
//! generator knows, and each operation of the generator is a function from
//! state to state there.
use vstd::prelude::*;
use vstd::string::StringExecFns;
use crate::bytecode::{Instruction, InstructionView, assemble};
use crate::bytecode::writing::{assembled, faithful};
use crate::error::{DSAsmError, ErrorKind, Failure, failure};
use crate::generation::labels::{distinct_labels, jumps_land, labels_below};
use crate::interpreter::{MemoryUnit, STACK_SIZE};
use crate::parser::{Node, NodeView, node_views};
use crate::text::{decimal, decimal_padded3, push_decimal_padded3};
use crate::tokenizer::{Token, TokenView, plain, token_views};

pub mod emit;
pub mod cells;
pub mod lower;
pub mod effects;
pub mod assembly;
pub mod labels;

verus! {

/// The number of cells that the intermediate assembly can address: an
/// address is written as a literal of eight bits.
pub const ADDRESSABLE: usize = 256;

/// What the generator knows of a cell.
#[derive(Debug, Clone, Copy, PartialEq, Eq, Structural, PartialOrd, Ord, Hash)]
pub enum Cell {
    /// Free to be handed out.
    Unused,
    /// Handed out, not yet bound.
    Used,
    /// Holds the variable of the given identity.
    Variable(u64),
    /// Holds an intermediate result until the statement ends.
    Temporary,
    /// Holds the result of a method.
    Return,
    /// Holds the parameter of the given identity.
    Parameter(u64),
}

impl Default for Cell {
    fn default() -> (c: Cell)
        ensures
            c == Cell::Unused,
    {
        Cell::Unused
    }
}

/// The four characters under which a cell is shown in a memory dump.
pub open spec fn cell_text(c: Cell) -> Seq<char> {
    match c {
        Cell::Temporary => "Temp"@,
        Cell::Unused => "Unus"@,
        Cell::Used => "Used"@,
        Cell::Variable(id) => "#"@ + decimal_padded3(id as nat),
        Cell::Parameter(id) => "§"@ + decimal_padded3(id as nat),
        Cell::Return => "Rtrn"@,
    }
}

impl Cell {
    /// Whether the cell is free to be handed out.
    pub fn is_unused(&self) -> (b: bool)
        ensures
            b == (*self == Cell::Unused),
    {
        match self {
            Cell::Unused => true,
            _ => false,
        }
    }

    /// The four characters under which the cell is shown in a memory dump;
    /// more when the identity has more than three digits.
    pub fn to_string(&self) -> (s: String)
        ensures
            s@ == cell_text(*self),
    {
        match self {
            Cell::Temporary => String::from_str("Temp"),
            Cell::Unused => String::from_str("Unus"),
            Cell::Used => String::from_str("Used"),
            Cell::Variable(id) => {
                let mut s = String::from_str("#");
                push_decimal_padded3(&mut s, *id);
                s
            },
            Cell::Parameter(id) => {
                let mut s = String::from_str("§");
                push_decimal_padded3(&mut s, *id);
                s
            },
            Cell::Return => String::from_str("Rtrn"),
        }
    }

    /// Whether the cell is handed out and not yet bound.
    pub fn is_used(&self) -> (b: bool)
        ensures
            b == (*self == Cell::Used),
    {
        match self {
            Cell::Used => true,
            _ => false,
        }
    }

    /// Whether the cell holds a variable.
    pub fn is_variable(&self) -> (b: bool)
        ensures
            b == (*self is Variable),
    {
        match self {
            Cell::Variable(_) => true,
            _ => false,
        }
    }

    /// Whether the cell holds the variable `id`.
    pub fn is_variable_of_id(&self, id: u64) -> (b: bool)
        ensures
            b == (*self == Cell::Variable(id)),
    {
        match self {
            Cell::Variable(i) => *i == id,
            _ => false,
        }
    }

    /// Whether the cell holds an intermediate result.
    pub fn is_temp(&self) -> (b: bool)
        ensures
            b == (*self == Cell::Temporary),
    {
        match self {
            Cell::Temporary => true,
            _ => false,
        }
    }

    /// The identity of the variable that the cell holds, if it holds one.
    pub fn get_var_id(&self) -> (id: Option<u64>)
        ensures
            id == (match *self {
                Cell::Variable(v) => Some(v),
                _ => None,
            }),
    {
        match self {
            Cell::Variable(id) => Some(*id),
            _ => None,
        }
    }
}

/// Where the pointer is after the instruction `i`, when it was at `from`
/// before.
pub open spec fn moved_to(i: InstructionView, from: MemoryUnit) -> MemoryUnit {
    match i {
        InstructionView::Plain(Instruction::MoveStack(address)) => address,
        _ => from,
    }
}

/// The address that the instructions `code` move to last, and `start` where
/// none of them moves.
pub open spec fn last_move(code: Seq<InstructionView>, start: MemoryUnit) -> MemoryUnit
    decreases code.len(),
{
    if code.len() == 0 {
        start
    } else {
        moved_to(code.last(), last_move(code.drop_last(), start))
    }
}

/// What the generator knows: the use of each cell, the address that the
/// emitted code has moved to last, the code emitted so far, and the number
/// of label identities handed out.
pub struct GeneratorState {
    pub cells: Seq<Cell>,
    pub pointer: MemoryUnit,
    pub output: Seq<TokenView>,
    pub labels: nat,
}

/// The name of a label: two underscores, the label's identity, an
/// underscore and the label's purpose.
pub open spec fn label_name(id: nat, purpose: Seq<char>) -> Seq<char> {
    "__"@ + decimal(id) + "_"@ + purpose
}

/// The index of the first unused cell from `from` on.
pub open spec fn first_unused(cells: Seq<Cell>, from: int) -> Option<int>
    decreases
        (if from < cells.len() {
            cells.len() - from
        } else {
            0
        }),
{
    if from < 0 || from >= cells.len() {
        None
    } else if cells[from] == Cell::Unused {
        Some(from)
    } else {
        first_unused(cells, from + 1)
    }
}

/// The index of the first cell from `from` on that holds the variable `id`.
pub open spec fn find_variable(cells: Seq<Cell>, id: u64, from: int) -> Option<int>
    decreases
        (if from < cells.len() {
            cells.len() - from
        } else {
            0
        }),
{
    if from < 0 || from >= cells.len() {
        None
    } else if cells[from] == Cell::Variable(id) {
        Some(from)
    } else {
        find_variable(cells, id, from + 1)
    }
}

/// The failure of an allocation when every cell is in use.
pub open spec fn out_of_memory() -> Failure {
    failure(ErrorKind::Compiler, "Not enough memory!"@)
}

/// The failure of the lowering when the first unused cell lies where no
/// literal of the assembly can address it.
pub open spec fn unaddressable() -> Failure {
    failure(ErrorKind::Compiler, "Not enough addressable memory!"@)
}

/// A failure of the generator: the state at the failure, and the failure.
pub type Failed = (GeneratorState, Failure);

/// No cell holds a temporary.
pub open spec fn no_temporaries(cells: Seq<Cell>) -> bool {
    forall|i: int| 0 <= i < cells.len() ==> #[trigger] cells[i] != Cell::Temporary
}

/// The variable that the cell at `index` holds, if it holds one.
pub open spec fn variable_at(cells: Seq<Cell>, index: int) -> Option<u64> {
    match cells[index] {
        Cell::Variable(id) => Some(id),
        _ => None,
    }
}

/// The cells that hold variables are the same, with the same variables, in
/// `before` and `after`.
pub open spec fn same_variables(before: Seq<Cell>, after: Seq<Cell>) -> bool {
    &&& before.len() == after.len()
    &&& forall|i: int|
        0 <= i < before.len() ==> #[trigger] variable_at(before, i) == variable_at(after, i)
}

/// Every cell that holds a variable in `before` holds the same variable in
/// `after`.
pub open spec fn kept_variables(before: Seq<Cell>, after: Seq<Cell>) -> bool {
    &&& before.len() == after.len()
    &&& forall|i: int|
        0 <= i < before.len() && (#[trigger] variable_at(before, i)) is Some ==> variable_at(
            after,
            i,
        ) == variable_at(before, i)
}

/// The variable `id` has exactly one cell.
#[verifier::opaque]
pub open spec fn bound_once(cells: Seq<Cell>, id: u64) -> bool {
    &&& exists|i: int| 0 <= i < cells.len() && #[trigger] variable_at(cells, i) == Some(id)
    &&& forall|i: int, j: int|
        0 <= i < cells.len() && 0 <= j < cells.len() && #[trigger] variable_at(cells, i) == Some(
            id,
        ) && #[trigger] variable_at(cells, j) == Some(id) ==> i == j
}

impl GeneratorState {
    /// The state of a generator that has done nothing yet.
    pub open spec fn initial() -> GeneratorState {
        GeneratorState {
            cells: Seq::new(STACK_SIZE as nat, |i: int| Cell::Unused),
            pointer: 0,
            output: Seq::empty(),
            labels: 0,
        }
    }

    /// There is a descriptor for every cell, every variable sits in a cell
    /// that can be addressed, no variable has two cells, and each label
    /// identity handed out so far has left a token in the output.
    pub open spec fn wf(self) -> bool {
        &&& self.cells.len() == STACK_SIZE
        &&& self.labels <= self.output.len()
        &&& forall|i: int|
            ADDRESSABLE <= i < STACK_SIZE ==> (#[trigger] variable_at(self.cells, i)) is None
        &&& forall|i: int, j: int|
            0 <= i < STACK_SIZE && 0 <= j < STACK_SIZE && (#[trigger] variable_at(self.cells, i))
                is Some && variable_at(self.cells, i) == #[trigger] variable_at(self.cells, j)
                ==> i == j
    }

    /// What has been emitted can be assembled, and is what the assembled
    /// instructions are written with.
    pub open spec fn reads(self) -> bool {
        faithful(self.output)
    }

    /// The instructions that what has been emitted assembles to.
    pub open spec fn program(self) -> Seq<InstructionView> {
        assembled(self.output)
    }

    /// The pointer is the address that the emitted code moves to last, and
    /// zero while the code has not moved.
    pub open spec fn tracks(self) -> bool {
        self.pointer == last_move(self.program(), 0)
    }

    /// What has been emitted can be assembled, to instructions whose labels
    /// are all different and bear identities that have been handed out, and
    /// whose jumps all name a label among them.
    pub open spec fn tidy(self) -> bool {
        &&& self.reads()
        &&& distinct_labels(self.program())
        &&& labels_below(self.program(), self.labels)
        &&& jumps_land(self.program())
    }

    /// The token emitted last is the plain token `t`.
    pub open spec fn ends_with(self, t: Token) -> bool {
        self.output.len() > 0 && self.output.last() == plain(t)
    }

    /// The state after one more token of output.
    pub open spec fn push(self, t: TokenView) -> GeneratorState {
        GeneratorState { output: self.output.push(t), ..self }
    }

    /// The state after `n` more tokens `t` of output.
    pub open spec fn push_times(self, t: TokenView, n: nat) -> GeneratorState
        decreases n,
    {
        if n == 0 {
            self
        } else {
            self.push_times(t, (n - 1) as nat).push(t)
        }
    }

    /// The state with another use of the cell at `address`.
    pub open spec fn mark(self, address: int, cell: Cell) -> GeneratorState {
        GeneratorState { cells: self.cells.update(address, cell), ..self }
    }

    /// The state after one more label identity has been handed out.
    pub open spec fn fresh(self) -> GeneratorState {
        GeneratorState { labels: self.labels + 1, ..self }
    }
}

/// Marking a cell as anything but a variable keeps a state well-formed,
/// and leaves its variables where they are if the cell holds no variable
/// before.
pub proof fn lemma_mark_plain(s: GeneratorState, address: int, cell: Cell)
    requires
        s.wf(),
        0 <= address < STACK_SIZE,
        !(cell is Variable),
    ensures
        s.mark(address, cell).wf(),
        !(s.cells[address] is Variable) ==> same_variables(s.cells, s.mark(address, cell).cells),
{
    let after = s.mark(address, cell).cells;
    assert forall|i: int| ADDRESSABLE <= i < STACK_SIZE implies (#[trigger] variable_at(after, i))
        is None by {
        assert(variable_at(s.cells, i) is None);
    }
    assert forall|a: int, b: int|
        0 <= a < STACK_SIZE && 0 <= b < STACK_SIZE && (#[trigger] variable_at(after, a)) is Some
            && variable_at(after, a) == #[trigger] variable_at(after, b) implies a == b by {
        if a != address && b != address {
            assert(variable_at(s.cells, a) == variable_at(after, a));
            assert(variable_at(s.cells, b) == variable_at(after, b));
        }
    }
    if !(s.cells[address] is Variable) {
        assert forall|i: int| 0 <= i < s.cells.len() implies #[trigger] variable_at(s.cells, i)
            == variable_at(after, i) by {}
    }
}

/// In a well-formed state a variable that has a cell has exactly one.
pub proof fn lemma_bound_once(s: GeneratorState, index: int, id: u64)
    requires
        s.wf(),
        0 <= index < STACK_SIZE,
        variable_at(s.cells, index) == Some(id),
    ensures
        bound_once(s.cells, id),
{
    reveal(bound_once);
}

/// Variables that are kept from one state to the next and from that to a
/// third are kept from the first to the third.
pub proof fn lemma_kept_variables_chain(a: Seq<Cell>, b: Seq<Cell>, c: Seq<Cell>)
    requires
        kept_variables(a, b),
        kept_variables(b, c),
    ensures
        kept_variables(a, c),
{
    assert forall|i: int| 0 <= i < a.len() && (#[trigger] variable_at(a, i)) is Some implies variable_at(
        c,
        i,
    ) == variable_at(a, i) by {
        assert(variable_at(b, i) == variable_at(a, i));
    }
}

/// Binding an addressable cell to a variable that has no cell yet keeps a
/// state well-formed.
pub proof fn lemma_mark_variable(s: GeneratorState, address: int, id: u64)
    requires
        s.wf(),
        0 <= address < ADDRESSABLE,
        forall|i: int| 0 <= i < STACK_SIZE ==> #[trigger] variable_at(s.cells, i) != Some(id),
    ensures
        s.mark(address, Cell::Variable(id)).wf(),
{
    let after = s.mark(address, Cell::Variable(id)).cells;
    assert forall|i: int| ADDRESSABLE <= i < STACK_SIZE implies (#[trigger] variable_at(after, i))
        is None by {
        assert(variable_at(s.cells, i) is None);
    }
    assert forall|a: int, b: int|
        0 <= a < STACK_SIZE && 0 <= b < STACK_SIZE && (#[trigger] variable_at(after, a)) is Some
            && variable_at(after, a) == #[trigger] variable_at(after, b) implies a == b by {
        if a != address {
            assert(variable_at(s.cells, a) == variable_at(after, a));
        }
        if b != address {
            assert(variable_at(s.cells, b) == variable_at(after, b));
        }
    }
}

/// A state that has emitted nothing is in order.
pub proof fn lemma_initial_tidy()
    ensures
        GeneratorState::initial().tidy(),
        GeneratorState::initial().tracks(),
{
    reveal(faithful);
    reveal(assembled);
    reveal(distinct_labels);
    reveal(labels_below);
    reveal(jumps_land);
    let s = GeneratorState::initial();
    assert(assemble(s.output)->Ok_0 =~= Seq::<InstructionView>::empty());
}

/// The code generator.
pub struct Generator {
    nodes: Vec<Node>,
    position: usize,
    stack: Vec<Cell>,
    pointer: MemoryUnit,
    output: Vec<Token>,
    labels: u64,
}

impl View for Generator {
    type V = GeneratorState;

    closed spec fn view(&self) -> GeneratorState {
        GeneratorState {
            cells: self.stack@,
            pointer: self.pointer,
            output: token_views(self.output@),
            labels: self.labels as nat,
        }
    }
}

impl Generator {
    /// The nodes to lower.
    pub closed spec fn nodes(&self) -> Seq<NodeView> {
        node_views(self.nodes@)
    }

    /// The index of the next node to lower.
    pub closed spec fn position(&self) -> nat {
        self.position as nat
    }

    /// The generator's own invariant. It implies that of its state, see
    /// `lemma_state_wf`.
    pub closed spec fn wf(&self) -> bool {
        &&& self@.wf()
        &&& self.position <= self.nodes@.len()
    }

    /// `self` is what `before` becomes by an allocation that ends as `r` and
    /// that `model` prescribes: the cell handed out was unused and is now
    /// `cell`, no other cell changes, and nothing changes at all when the
    /// allocation fails.
    pub open spec fn allotted(
        &self,
        before: &Generator,
        cell: Cell,
        r: Result<MemoryUnit, DSAsmError>,
        model: Result<(GeneratorState, MemoryUnit), Failed>,
    ) -> bool {
        &&& self.wf()
        &&& self.nodes() == before.nodes()
        &&& self.position() == before.position()
        &&& same_variables(before@.cells, self@.cells)
        &&& match r {
            Ok(address) => {
                &&& model == Ok::<(GeneratorState, MemoryUnit), Failed>((self@, address))
                &&& address < STACK_SIZE
                &&& before@.cells[address as int] == Cell::Unused
                &&& self@ == before@.mark(address as int, cell)
            },
            Err(e) => model == Err::<(GeneratorState, MemoryUnit), Failed>((self@, e@)) && self@
                == before@,
        }
    }

    /// `self` is what `before` becomes by a lowering step that ends as `r`
    /// and that `model` prescribes, whether the step succeeds or fails: the
    /// variables stay where they are, the cell of the result can be
    /// addressed, and what has been emitted can still be assembled.
    pub open spec fn lowered(
        &self,
        before: &Generator,
        r: Result<MemoryUnit, DSAsmError>,
        model: Result<(GeneratorState, MemoryUnit), Failed>,
    ) -> bool {
        &&& self.wf()
        &&& self.nodes() == before.nodes()
        &&& self.position() == before.position()
        &&& same_variables(before@.cells, self@.cells)
        &&& r is Ok && before@.reads() ==> self@.reads()
        &&& r is Ok && before@.tidy() ==> self@.tidy()
        &&& r is Ok && before@.reads() && before@.tracks() ==> self@.tracks()
        &&& match r {
            Ok(cell) => model == Ok::<(GeneratorState, MemoryUnit), Failed>((self@, cell)) && cell
                <= u8::MAX,
            Err(e) => model == Err::<(GeneratorState, MemoryUnit), Failed>((self@, e@)),
        }
    }

    /// `self` is what `before` becomes when its state becomes `state` by
    /// emitting the instructions `code`: if what `before` had emitted can
    /// be assembled, so can what `self` has emitted, and it assembles to
    /// the same instructions and then those of `code`.
    pub open spec fn emits(
        &self,
        before: &Generator,
        state: GeneratorState,
        code: Seq<InstructionView>,
    ) -> bool {
        &&& self.follows(before, state)
        &&& before@.reads() ==> self@.reads() && self@.program() == before@.program() + code
        &&& before@.reads() && before@.tracks() ==> self@.tracks()
    }

    /// `self` is what `before` becomes when its state becomes `state`, and
    /// what has been emitted stays in order: it can be assembled if it
    /// could before, and its labels are all different if they were.
    pub open spec fn keeps(&self, before: &Generator, state: GeneratorState) -> bool {
        &&& self.follows(before, state)
        &&& before@.reads() ==> self@.reads()
        &&& before@.tidy() ==> self@.tidy()
        &&& before@.reads() && before@.tracks() ==> self@.tracks()
    }

    /// `self` is what `before` becomes when its state becomes `state`.
    pub open spec fn follows(&self, before: &Generator, state: GeneratorState) -> bool {
        &&& self.wf()
        &&& self@ == state
        &&& self.nodes() == before.nodes()
        &&& self.position() == before.position()
    }

    /// A well-formed generator holds a well-formed state.
    pub proof fn lemma_state_wf(&self)
        requires
            self.wf(),
        ensures
            self@.wf(),
    {
    }

    /// A generator for a sequence of nodes, with every cell unused and no
    /// code emitted.
    pub fn new(i: Vec<Node>) -> (g: Generator)
        ensures
            g.wf(),
            g@ == GeneratorState::initial(),
            g@.tidy(),
            g@.tracks(),
            g.nodes() == node_views(i@),
            g.position() == 0,
    {
        let mut stack: Vec<Cell> = Vec::new();
        let mut n: usize = 0;
        while n < STACK_SIZE
            invariant
                n <= STACK_SIZE,
                stack@.len() == n,
                forall|k: int| 0 <= k < n ==> stack@[k] == Cell::Unused,
            decreases STACK_SIZE - n,
        {
            stack.push(Cell::Unused);
            n += 1;
        }
        let g = Generator { nodes: i, position: 0, stack, pointer: 0, output: Vec::new(), labels: 0 };
        assert(g@.cells =~= GeneratorState::initial().cells);
        assert(g@.output =~= GeneratorState::initial().output);
        proof {
            lemma_initial_tidy();
        }
        g
    }

    /// The use of each cell.
    pub fn cells(&self) -> (cells: &Vec<Cell>)
        ensures
            cells@ == self@.cells,
    {
        &self.stack
    }

    /// The code emitted so far.
    pub fn emitted(&self) -> (tokens: &Vec<Token>)
        ensures
            token_views(tokens@) == self@.output,
    {
        &self.output
    }

    /// The address that the emitted code has moved to last.
    pub fn pointer(&self) -> (p: MemoryUnit)
        ensures
            p == self@.pointer,
    {
        self.pointer
    }

    /// Emits one token.
    fn push(&mut self, t: Token)
        requires
            old(self).wf(),
        ensures
            final(self).follows(old(self), old(self)@.push(t@)),
    {
        self.output.push(t);
        assert(token_views(self.output@) =~= token_views(old(self).output@).push(t@));
    }
}

} // verus!
