//! The bytecode interpreter over a bounded memory.
//!
//! The interpreter is a machine that can be stepped: it holds the bytes it
//! may still read and the bytes it has written, so that running a program is
//! a function of the program and of the bytes fed to it.
use vstd::prelude::*;
use vstd::hash_map::StringHashMap;
use vstd::string::StringExecFns;
use crate::bytecode::{Instruction, InstructionView, instruction_text, instruction_views};
use crate::error::{DSAsmError, ErrorKind, Failure, failure};
use crate::processor::Processor;
use crate::text::{decimal, push_decimal, push_quoted, quoted};

verus! {

/// One cell of memory.
pub type MemoryUnit = u16;

/// The number of cells of memory.
pub const STACK_SIZE: usize = 1024;

/// The number of bits of a cell.
pub const CELL_BITS: MemoryUnit = 16;

/// The state of the machine.
pub struct Machine {
    /// The cells, `STACK_SIZE` of them.
    pub memory: Seq<MemoryUnit>,
    /// The index of the current cell.
    pub pointer: int,
    /// The index of the next instruction.
    pub cursor: int,
    /// The bytes that have been fed and not yet read.
    pub input: Seq<u8>,
    /// The bytes written so far.
    pub output: Seq<u8>,
}

/// Whether the machine can go on.
#[derive(Clone, Copy, PartialEq, Eq, Structural, Debug)]
pub enum Status {
    /// The next instruction can be executed.
    Running,
    /// The cursor is past the last instruction.
    Halted,
    /// The next instruction reads a byte and none is left.
    Starved,
}

/// The sum of two cells, wrapped to the width of a cell.
pub open spec fn wrap_add(x: MemoryUnit, y: MemoryUnit) -> MemoryUnit {
    if x + y > MemoryUnit::MAX {
        (x + y - 0x10000) as MemoryUnit
    } else {
        (x + y) as MemoryUnit
    }
}

/// The difference of two cells, wrapped to the width of a cell.
pub open spec fn wrap_sub(x: MemoryUnit, y: MemoryUnit) -> MemoryUnit {
    if x - y < 0 {
        (x - y + 0x10000) as MemoryUnit
    } else {
        (x - y) as MemoryUnit
    }
}

/// The product of two cells, wrapped to the width of a cell.
pub open spec fn wrap_mul(x: MemoryUnit, y: MemoryUnit) -> MemoryUnit {
    ((x as nat * y as nat) % 0x10000nat) as MemoryUnit
}

/// The low eight bits of a cell.
pub open spec fn low_byte(x: MemoryUnit) -> u8 {
    (x % 256) as u8
}

/// The place that a label names: the index after the first instruction from
/// `from` on that defines it.
pub open spec fn find_label(program: Seq<InstructionView>, name: Seq<char>, from: int) -> Option<
    int,
>
    decreases
        (if from < program.len() {
            program.len() - from
        } else {
            0
        }),
{
    if from < 0 || from >= program.len() {
        None
    } else if program[from] == InstructionView::Label(name) {
        Some(from + 1)
    } else {
        find_label(program, name, from + 1)
    }
}

/// The place that a label names in a program.
pub open spec fn resolve(program: Seq<InstructionView>, name: Seq<char>) -> Option<int> {
    find_label(program, name, 0)
}

/// Whether `table` holds the place of every label that `program` defines,
/// and nothing else.
pub open spec fn tabled(table: Map<Seq<char>, usize>, program: Seq<InstructionView>) -> bool {
    forall|name: Seq<char>|
        #![trigger table.contains_key(name)]
        #![trigger resolve(program, name)]
        match resolve(program, name) {
            Some(target) => table.contains_key(name) && table[name] as int == target,
            None => !table.contains_key(name),
        }
}

/// The place that a label names when the program grows by one instruction:
/// the place it had, or else the new end if the new instruction defines it.
proof fn lemma_find_longer(program: Seq<InstructionView>, name: Seq<char>, from: int, upto: int)
    requires
        0 <= from <= upto < program.len(),
    ensures
        find_label(program.subrange(0, upto + 1), name, from) == (match find_label(
            program.subrange(0, upto),
            name,
            from,
        ) {
            Some(target) => Some(target),
            None => if program[upto] == InstructionView::Label(name) {
                Some(upto + 1)
            } else {
                None
            },
        }),
    decreases upto - from,
{
    let longer = program.subrange(0, upto + 1);
    let shorter = program.subrange(0, upto);
    if from < upto {
        assert(longer[from] == shorter[from]);
        if shorter[from] != InstructionView::Label(name) {
            lemma_find_longer(program, name, from + 1, upto);
        }
    } else {
        assert(longer[from] == program[upto]);
        assert(find_label(longer, name, from + 1) is None);
    }
}

/// Whether the instruction at `index` defines a label that an earlier
/// instruction has defined already.
pub open spec fn redefines(program: Seq<InstructionView>, index: int) -> bool {
    program[index] matches InstructionView::Label(name) && resolve(program, name) != Some(
        index + 1,
    )
}

/// The first index from `from` on whose instruction defines a label again.
pub open spec fn first_redefinition(program: Seq<InstructionView>, from: int) -> Option<int>
    decreases
        (if from < program.len() {
            program.len() - from
        } else {
            0
        }),
{
    if from < 0 || from >= program.len() {
        None
    } else if redefines(program, from) {
        Some(from)
    } else {
        first_redefinition(program, from + 1)
    }
}

/// The name that the instruction at `index` carries.
pub open spec fn name_at(program: Seq<InstructionView>, index: int) -> Seq<char> {
    match program[index] {
        InstructionView::Label(name) => name,
        InstructionView::Jump(name) => name,
        InstructionView::JumpZero(name) => name,
        InstructionView::JumpNotZero(name) => name,
        InstructionView::Plain(_) => Seq::empty(),
    }
}

/// The check of a program before it runs: no label is defined twice.
pub open spec fn check_labels(program: Seq<InstructionView>) -> Result<(), Failure> {
    match first_redefinition(program, 0) {
        None => Ok(()),
        Some(index) => Err(
            failure(
                ErrorKind::Interpreter,
                "Label "@ + quoted(name_at(program, index)) + " already exists"@,
            ),
        ),
    }
}

/// The failure for an address outside the memory.
pub open spec fn invalid_address(address: MemoryUnit) -> Failure {
    failure(ErrorKind::Interpreter, "Invalid address "@ + decimal(address as nat))
}

/// The failure for a jump to a label that no instruction defines.
pub open spec fn unknown_label(name: Seq<char>) -> Failure {
    failure(ErrorKind::Interpreter, "Label "@ + quoted(name) + " does not exists"@)
}

/// The failure for a division by a cell that holds zero.
pub open spec fn division_by_zero() -> Failure {
    failure(ErrorKind::Interpreter, "Division by zero"@)
}

/// The failure for an instruction that cannot be executed.
pub open spec fn unexpected_instruction(i: InstructionView) -> Failure {
    failure(ErrorKind::Interpreter, "Unexpected Instruction "@ + quoted(instruction_text(i)))
}

impl Machine {
    /// The machine before anything ran: all cells zero, nothing fed or
    /// written.
    pub open spec fn initial() -> Machine {
        Machine {
            memory: Seq::new(STACK_SIZE as nat, |i: int| 0u16),
            pointer: 0,
            cursor: 0,
            input: Seq::empty(),
            output: Seq::empty(),
        }
    }

    /// Memory has its size and the pointer is inside it.
    pub open spec fn wf(self) -> bool {
        &&& self.memory.len() == STACK_SIZE
        &&& 0 <= self.pointer < STACK_SIZE
        &&& 0 <= self.cursor
    }

    /// The current cell.
    pub open spec fn current(self) -> MemoryUnit {
        self.memory[self.pointer]
    }

    /// The machine with `value` in the current cell.
    pub open spec fn store(self, value: MemoryUnit) -> Machine {
        Machine { memory: self.memory.update(self.pointer, value), ..self }
    }

    /// The machine with `value` in the cell at `address`.
    pub open spec fn store_at(self, address: int, value: MemoryUnit) -> Machine {
        Machine { memory: self.memory.update(address, value), ..self }
    }

    /// The machine about to execute the instruction at `target`.
    pub open spec fn jump(self, target: int) -> Machine {
        Machine { cursor: target, ..self }
    }

    /// The machine after a jump to a label, taken or not.
    pub open spec fn jump_to(self, program: Seq<InstructionView>, name: Seq<char>, taken: bool)
        -> Result<Machine, Failure> {
        match resolve(program, name) {
            None => Err(unknown_label(name)),
            Some(target) => Ok(
                if taken {
                    self.jump(target)
                } else {
                    self
                },
            ),
        }
    }

    /// The machine after an instruction that combines the current cell with
    /// the cell at `address`.
    pub open spec fn combine(self, address: MemoryUnit, op: spec_fn(MemoryUnit, MemoryUnit) -> MemoryUnit)
        -> Result<Machine, Failure> {
        if address >= STACK_SIZE {
            Err(invalid_address(address))
        } else {
            Ok(self.store(op(self.current(), self.memory[address as int])))
        }
    }
}

/// Whether the machine can go on with a program.
pub open spec fn status(program: Seq<InstructionView>, m: Machine) -> Status {
    if m.cursor >= program.len() {
        Status::Halted
    } else if program[m.cursor] == InstructionView::Plain(Instruction::UserInput) && m.input.len()
        == 0 {
        Status::Starved
    } else {
        Status::Running
    }
}

/// The machine after the instruction at its cursor, or the failure of that
/// instruction. It is meant for a machine that is `Running`.
pub open spec fn execute(program: Seq<InstructionView>, m: Machine) -> Result<Machine, Failure> {
    let next = m.jump(m.cursor + 1);
    match program[m.cursor] {
        InstructionView::Label(_) => Ok(next),
        InstructionView::Jump(name) => next.jump_to(program, name, true),
        InstructionView::JumpZero(name) => next.jump_to(program, name, m.current() == 0),
        InstructionView::JumpNotZero(name) => next.jump_to(program, name, m.current() != 0),
        InstructionView::Plain(i) => match i {
            Instruction::MoveStack(address) => if address >= STACK_SIZE {
                Err(invalid_address(address))
            } else {
                Ok(Machine { pointer: address as int, ..next })
            },
            Instruction::Increment(amount) => Ok(next.store(wrap_add(m.current(), amount))),
            Instruction::Decrement(amount) => Ok(next.store(wrap_sub(m.current(), amount))),
            Instruction::UserInput => Ok(
                Machine { input: m.input.drop_first(), ..next.store(m.input[0] as MemoryUnit) },
            ),
            Instruction::Print => Ok(
                Machine { output: m.output.push(low_byte(m.current())), ..next },
            ),
            Instruction::Invert => Ok(
                next.store(
                    if m.current() == 0 {
                        1
                    } else {
                        0
                    },
                ),
            ),
            Instruction::Multiply(address) => next.combine(
                address,
                |x: MemoryUnit, y: MemoryUnit| wrap_mul(x, y),
            ),
            Instruction::Divide(address) => if address >= STACK_SIZE {
                Err(invalid_address(address))
            } else if m.memory[address as int] == 0 {
                Err(division_by_zero())
            } else {
                Ok(
                    next.store(m.current() / m.memory[address as int]).store_at(
                        address as int,
                        m.current() % m.memory[address as int],
                    ),
                )
            },
            Instruction::Clear => Ok(next.store(0)),
            Instruction::Dereference(address) => if address >= STACK_SIZE {
                Err(invalid_address(address))
            } else if m.memory[address as int] >= STACK_SIZE {
                Err(invalid_address(m.memory[address as int]))
            } else {
                Ok(next.store(m.memory[m.memory[address as int] as int]))
            },
            Instruction::Goto(target) => Ok(m.jump(target as int)),
            Instruction::Compare(address) => next.combine(
                address,
                |x: MemoryUnit, y: MemoryUnit|
                    if x > y {
                        1u16
                    } else {
                        2u16
                    },
            ),
            Instruction::ShiftL(address) => next.combine(
                address,
                |x: MemoryUnit, y: MemoryUnit| x << (y % CELL_BITS),
            ),
            Instruction::ShiftR(address) => next.combine(
                address,
                |x: MemoryUnit, y: MemoryUnit| x >> (y % CELL_BITS),
            ),
            Instruction::Or(address) => next.combine(
                address,
                |x: MemoryUnit, y: MemoryUnit| x | y,
            ),
            _ => Err(unexpected_instruction(program[m.cursor])),
        },
    }
}

/// How a run of at most `fuel` instructions ends, and the machine at that
/// point: halted, starved, failed, or still running when the fuel is spent.
pub open spec fn run(program: Seq<InstructionView>, m: Machine, fuel: nat) -> (
    Result<Status, Failure>,
    Machine,
)
    decreases fuel,
{
    if status(program, m) != Status::Running || fuel == 0 {
        (Ok(status(program, m)), m)
    } else {
        match execute(program, m) {
            Err(e) => (Err(e), m),
            Ok(after) => run(program, after, (fuel - 1) as nat),
        }
    }
}

/// The interpreter: a program, the table of the places that its labels
/// name, the memory, and the bytes fed and written.
pub struct Interpreter {
    base: Processor<Instruction>,
    labels: StringHashMap<usize>,
    stack: Vec<MemoryUnit>,
    stack_ptr: usize,
    input: Vec<u8>,
    taken: usize,
    output: Vec<u8>,
}

/// The table of the labels that a program defines. Where a label is
/// defined more than once, its first definition counts.
fn label_table(content: &Vec<Instruction>) -> (table: StringHashMap<usize>)
    ensures
        tabled(table@, instruction_views(content@)),
{
    let ghost program = instruction_views(content@);
    let mut table: StringHashMap<usize> = StringHashMap::new();
    let mut i: usize = 0;
    while i < content.len()
        invariant
            i <= content.len(),
            program == instruction_views(content@),
            tabled(table@, program.subrange(0, i as int)),
        decreases content.len() - i,
    {
        let ghost before = table@;
        if let Instruction::Label(name) = &content[i] {
            if !table.contains_key(name.as_str()) {
                table.insert(name.clone(), i + 1);
            }
        }
        proof {
            let shorter = program.subrange(0, i as int);
            let longer = program.subrange(0, i + 1);
            assert forall|name: Seq<char>|
                #![trigger table@.contains_key(name)]
                #![trigger resolve(longer, name)]
                match resolve(longer, name) {
                    Some(target) => table@.contains_key(name) && table@[name] as int == target,
                    None => !table@.contains_key(name),
                } by {
                lemma_find_longer(program, name, 0, i as int);
                assert(before.contains_key(name) || !before.contains_key(name));
                assert(resolve(shorter, name) == find_label(shorter, name, 0));
            }
        }
        i += 1;
    }
    assert(program.subrange(0, i as int) =~= program);
    table
}

fn invalid_address_error(address: MemoryUnit) -> (e: DSAsmError)
    ensures
        e@ == invalid_address(address),
{
    let mut message = String::from_str("Invalid address ");
    push_decimal(&mut message, address as u64);
    DSAsmError::InterpreterError(message)
}

fn label_error(name: &String, ending: &str) -> (e: DSAsmError)
    ensures
        e@ == failure(ErrorKind::Interpreter, "Label "@ + quoted(name@) + ending@),
{
    let mut message = String::from_str("Label ");
    push_quoted(&mut message, name.as_str());
    message.append(ending);
    DSAsmError::InterpreterError(message)
}

impl Interpreter {
    /// The program.
    pub closed spec fn program(&self) -> Seq<InstructionView> {
        instruction_views(self.base.items())
    }

    /// The state of the machine.
    pub closed spec fn machine(&self) -> Machine {
        Machine {
            memory: self.stack@,
            pointer: self.stack_ptr as int,
            cursor: self.base.position() as int,
            input: self.input@.subrange(self.taken as int, self.input@.len() as int),
            output: self.output@,
        }
    }

    /// The interpreter's own invariant; it implies that of the machine.
    pub closed spec fn wf(&self) -> bool {
        &&& self.stack@.len() == STACK_SIZE
        &&& self.stack_ptr < STACK_SIZE
        &&& self.taken <= self.input@.len()
        &&& tabled(self.labels@, self.program())
    }

    /// A well-formed interpreter holds a well-formed machine.
    pub proof fn lemma_machine_wf(&self)
        requires
            self.wf(),
        ensures
            self.machine().wf(),
    {
    }

    /// An interpreter for a program, with all cells zero, nothing fed and
    /// nothing written.
    pub fn new(content: Vec<Instruction>) -> (i: Interpreter)
        ensures
            i.wf(),
            i.program() == instruction_views(content@),
            i.machine() == Machine::initial(),
    {
        let mut stack: Vec<MemoryUnit> = Vec::new();
        let mut n: usize = 0;
        while n < STACK_SIZE
            invariant
                n <= STACK_SIZE,
                stack@.len() == n,
                forall|k: int| 0 <= k < n ==> stack@[k] == 0,
            decreases STACK_SIZE - n,
        {
            stack.push(0);
            n += 1;
        }
        let labels = label_table(&content);
        let i = Interpreter {
            base: Processor::new(content),
            labels,
            stack,
            stack_ptr: 0,
            input: Vec::new(),
            taken: 0,
            output: Vec::new(),
        };
        assert(i.machine().memory =~= Machine::initial().memory);
        assert(i.machine().input =~= Machine::initial().input);
        i
    }

    /// Adds a byte to the end of those the program may read.
    pub fn feed(&mut self, byte: u8)
        requires
            old(self).wf(),
        ensures
            final(self).wf(),
            final(self).program() == old(self).program(),
            final(self).machine() == (Machine {
                input: old(self).machine().input.push(byte),
                ..old(self).machine()
            }),
    {
        self.input.push(byte);
        assert(self.machine().input =~= old(self).machine().input.push(byte));
    }

    /// The bytes written so far.
    pub fn output(&self) -> (bytes: &Vec<u8>)
        ensures
            bytes@ == self.machine().output,
    {
        &self.output
    }

    /// Hands out the bytes written so far and forgets them.
    pub fn take_output(&mut self) -> (bytes: Vec<u8>)
        requires
            old(self).wf(),
        ensures
            final(self).wf(),
            final(self).program() == old(self).program(),
            bytes@ == old(self).machine().output,
            final(self).machine() == (Machine { output: Seq::empty(), ..old(self).machine() }),
    {
        let mut bytes: Vec<u8> = Vec::new();
        core::mem::swap(&mut bytes, &mut self.output);
        bytes
    }

    /// The cells.
    pub fn memory(&self) -> (cells: &Vec<MemoryUnit>)
        ensures
            cells@ == self.machine().memory,
    {
        &self.stack
    }

    /// The index of the current cell.
    pub fn pointer(&self) -> (p: usize)
        ensures
            p == self.machine().pointer,
    {
        self.stack_ptr
    }

    /// The place that `name` stands for, as the table of labels has it.
    fn lookup(&self, name: &String) -> (r: Option<usize>)
        requires
            self.wf(),
        ensures
            match r {
                Some(target) => resolve(self.program(), name@) == Some(target as int),
                None => resolve(self.program(), name@) is None,
            },
    {
        match self.labels.get(name.as_str()) {
            Some(target) => {
                assert(self.labels@.contains_key(name@));
                Some(*target)
            },
            None => {
                assert(!self.labels@.contains_key(name@));
                None
            },
        }
    }

    /// The place of a label, or the error for a label that no instruction
    /// defines.
    fn label_must_exist(&self, name: &String) -> (r: Result<usize, DSAsmError>)
        requires
            self.wf(),
        ensures
            match r {
                Ok(target) => resolve(self.program(), name@) == Some(target as int),
                Err(e) => resolve(self.program(), name@) is None && e@ == unknown_label(name@),
            },
    {
        match self.lookup(name) {
            Some(target) => Ok(target),
            None => Err(label_error(name, " does not exists")),
        }
    }

    /// Checks that no label is defined twice, and puts the cursor on the
    /// first instruction.
    pub fn prepare(&mut self) -> (r: Result<(), DSAsmError>)
        requires
            old(self).wf(),
        ensures
            final(self).wf(),
            final(self).program() == old(self).program(),
            match r {
                Ok(_) => check_labels(old(self).program()) is Ok && final(self).machine()
                    == old(self).machine().jump(0),
                Err(e) => {
                    &&& check_labels(old(self).program()) == Err::<(), Failure>(e@)
                    &&& final(self).machine() == old(self).machine()
                },
            },
    {
        let n = self.base.len();
        let mut i: usize = 0;
        while i < n
            invariant
                self.wf(),
                self.program() == old(self).program(),
                self.machine() == old(self).machine(),
                n == self.base.items().len(),
                i <= n,
                first_redefinition(self.program(), 0) == first_redefinition(
                    self.program(),
                    i as int,
                ),
            decreases n - i,
        {
            if let Instruction::Label(name) = self.base.at(i) {
                let found = self.lookup(name);
                let again = match found {
                    Some(target) => target != i + 1,
                    None => true,
                };
                if again {
                    return Err(label_error(name, " already exists"));
                }
            }
            i += 1;
        }
        self.base.set_peek(0);
        Ok(())
    }

    /// Whether the machine can go on.
    pub fn status(&self) -> (s: Status)
        requires
            self.wf(),
        ensures
            s == status(self.program(), self.machine()),
    {
        if !self.base.has_peek() {
            Status::Halted
        } else if matches!(self.base.at(self.base.get_peek()), Instruction::UserInput) && self.taken
            >= self.input.len() {
            Status::Starved
        } else {
            Status::Running
        }
    }

    fn store(&mut self, value: MemoryUnit)
        requires
            old(self).wf(),
        ensures
            final(self).wf(),
            final(self).program() == old(self).program(),
            final(self).machine() == old(self).machine().store(value),
    {
        self.stack.set(self.stack_ptr, value);
    }

    fn cell(&self, address: MemoryUnit) -> (r: Result<MemoryUnit, DSAsmError>)
        requires
            self.wf(),
        ensures
            match r {
                Ok(value) => address < STACK_SIZE && value == self.machine().memory[address as int],
                Err(e) => address >= STACK_SIZE && e@ == invalid_address(address),
            },
    {
        if address as usize >= STACK_SIZE {
            Err(invalid_address_error(address))
        } else {
            Ok(self.stack[address as usize])
        }
    }

    fn current(&self) -> (value: MemoryUnit)
        requires
            self.wf(),
        ensures
            value == self.machine().current(),
    {
        self.stack[self.stack_ptr]
    }

    fn jump(&mut self, name: &String, taken: bool) -> (r: Result<(), DSAsmError>)
        requires
            old(self).wf(),
        ensures
            final(self).wf(),
            final(self).program() == old(self).program(),
            match r {
                Ok(_) => old(self).machine().jump_to(old(self).program(), name@, taken) == Ok::<
                    Machine,
                    Failure,
                >(final(self).machine()),
                Err(e) => {
                    &&& old(self).machine().jump_to(old(self).program(), name@, taken) == Err::<
                        Machine,
                        Failure,
                    >(e@)
                    &&& final(self).machine() == old(self).machine()
                },
            },
    {
        let target = self.label_must_exist(name)?;
        if taken {
            self.base.set_peek(target);
        }
        Ok(())
    }

    /// Executes the instruction at the cursor of a running machine. When the
    /// instruction fails, only the cursor has moved on.
    fn perform(&mut self) -> (r: Result<(), DSAsmError>)
        requires
            old(self).wf(),
            status(old(self).program(), old(self).machine()) == Status::Running,
        ensures
            final(self).wf(),
            final(self).program() == old(self).program(),
            match r {
                Ok(_) => execute(old(self).program(), old(self).machine()) == Ok::<
                    Machine,
                    Failure,
                >(final(self).machine()),
                Err(e) => {
                    &&& execute(old(self).program(), old(self).machine()) == Err::<
                        Machine,
                        Failure,
                    >(e@)
                    &&& final(self).machine() == old(self).machine().jump(
                        old(self).machine().cursor + 1,
                    )
                },
            },
    {
        let ghost program = self.program();
        let ghost m = self.machine();
        let held = self.current();
        let instruction = self.base.consume();
        assert(instruction@ == program[m.cursor]);
        match instruction {
            Instruction::MoveStack(address) => {
                if address as usize >= STACK_SIZE {
                    return Err(invalid_address_error(address));
                }
                self.stack_ptr = address as usize;
            },
            Instruction::Increment(amount) => {
                self.store(held.wrapping_add(amount));
            },
            Instruction::Decrement(amount) => {
                self.store(held.wrapping_sub(amount));
            },
            Instruction::UserInput => {
                assert(self.taken < self.input.len());
                let byte = self.input[self.taken];
                self.taken += 1;
                assert(self.machine().input =~= m.input.drop_first());
                self.store(byte as MemoryUnit);
            },
            Instruction::Print => {
                self.output.push((held % 256) as u8);
            },
            Instruction::Label(_) => {},
            Instruction::Jump(name) => {
                self.jump(&name, true)?;
            },
            Instruction::JumpZero(name) => {
                self.jump(&name, held == 0)?;
            },
            Instruction::JumpNotZero(name) => {
                self.jump(&name, held != 0)?;
            },
            Instruction::Invert => {
                self.store(
                    if held == 0 {
                        1
                    } else {
                        0
                    },
                );
            },
            Instruction::Multiply(address) => {
                let other = self.cell(address)?;
                self.store(held.wrapping_mul(other));
            },
            Instruction::Divide(address) => {
                let other = self.cell(address)?;
                if other == 0 {
                    return Err(
                        DSAsmError::InterpreterError(String::from_str("Division by zero")),
                    );
                }
                self.store(held / other);
                self.stack.set(address as usize, held % other);
            },
            Instruction::Clear => {
                self.store(0);
            },
            Instruction::Dereference(address) => {
                let target = self.cell(address)?;
                let value = self.cell(target)?;
                self.store(value);
            },
            Instruction::Goto(target) => {
                self.base.set_peek(target as usize);
            },
            Instruction::Compare(address) => {
                let other = self.cell(address)?;
                self.store(
                    if held > other {
                        1
                    } else {
                        2
                    },
                );
            },
            Instruction::ShiftL(address) => {
                let other = self.cell(address)?;
                self.store(held << (other % CELL_BITS));
            },
            Instruction::ShiftR(address) => {
                let other = self.cell(address)?;
                self.store(held >> (other % CELL_BITS));
            },
            Instruction::Or(address) => {
                let other = self.cell(address)?;
                self.store(held | other);
            },
            Instruction::Invalid => {
                let mut message = String::from_str("Unexpected Instruction ");
                push_quoted(&mut message, instruction.to_string().as_str());
                return Err(DSAsmError::InterpreterError(message));
            },
        }
        Ok(())
    }

    /// Executes the instruction at the cursor. A machine that has halted or
    /// that waits for a byte stays as it is, and so does a machine whose
    /// instruction fails.
    pub fn step(&mut self) -> (r: Result<Status, DSAsmError>)
        requires
            old(self).wf(),
        ensures
            final(self).wf(),
            final(self).program() == old(self).program(),
            status(old(self).program(), old(self).machine()) != Status::Running ==> {
                &&& r == Ok::<Status, DSAsmError>(status(old(self).program(), old(self).machine()))
                &&& final(self).machine() == old(self).machine()
            },
            status(old(self).program(), old(self).machine()) == Status::Running ==> match r {
                Ok(s) => execute(old(self).program(), old(self).machine()) == Ok::<
                    Machine,
                    Failure,
                >(final(self).machine()) && s == Status::Running,
                Err(e) => {
                    &&& execute(old(self).program(), old(self).machine()) == Err::<
                        Machine,
                        Failure,
                    >(e@)
                    &&& final(self).machine() == old(self).machine()
                },
            },
    {
        let before = self.status();
        if before != Status::Running {
            return Ok(before);
        }
        let start = self.base.get_peek();
        match self.perform() {
            Ok(_) => Ok(Status::Running),
            Err(e) => {
                self.base.set_peek(start);
                Err(e)
            },
        }
    }

    /// Executes instructions until the machine halts, waits for a byte or
    /// fails, but at most `max_steps` of them. After a failure the machine
    /// is as it was before the instruction that failed.
    pub fn run(&mut self, max_steps: u64) -> (r: Result<Status, DSAsmError>)
        requires
            old(self).wf(),
        ensures
            final(self).wf(),
            final(self).program() == old(self).program(),
            match r {
                Ok(s) => run(old(self).program(), old(self).machine(), max_steps as nat) == (
                    Ok::<Status, Failure>(s),
                    final(self).machine(),
                ),
                Err(e) => run(old(self).program(), old(self).machine(), max_steps as nat) == (
                    Err::<Status, Failure>(e@),
                    final(self).machine(),
                ),
            },
    {
        let mut left = max_steps;
        loop
            invariant
                self.wf(),
                self.program() == old(self).program(),
                run(old(self).program(), old(self).machine(), max_steps as nat) == run(
                    self.program(),
                    self.machine(),
                    left as nat,
                ),
            decreases left,
        {
            let now = self.status();
            if now != Status::Running || left == 0 {
                return Ok(now);
            }
            self.step()?;
            left -= 1;
        }
    }

    /// Runs the program from its first instruction: checks its labels, then
    /// executes at most `max_steps` instructions, reading from the bytes fed
    /// so far. The result and the machine afterwards, with the bytes it
    /// has written, depend on nothing but the program, the memory and the
    /// bytes fed, whether the run fails or not.
    pub fn interpret(&mut self, max_steps: u64) -> (r: Result<Status, DSAsmError>)
        requires
            old(self).wf(),
        ensures
            final(self).wf(),
            final(self).program() == old(self).program(),
            match r {
                Ok(s) => check_labels(old(self).program()) is Ok && run(
                    old(self).program(),
                    old(self).machine().jump(0),
                    max_steps as nat,
                ) == (Ok::<Status, Failure>(s), final(self).machine()),
                Err(e) => e@.kind == ErrorKind::Interpreter && (match check_labels(
                    old(self).program(),
                ) {
                    Err(clash) => e@ == clash && final(self).machine() == old(self).machine(),
                    Ok(_) => run(
                        old(self).program(),
                        old(self).machine().jump(0),
                        max_steps as nat,
                    ) == (Err::<Status, Failure>(e@), final(self).machine()),
                }),
            },
    {
        self.prepare()?;
        let r = self.run(max_steps);
        proof {
            lemma_run_failure_kind(old(self).program(), old(self).machine().jump(0), max_steps as nat);
        }
        r
    }
}

/// A run fails only with an error of the interpreter.
pub proof fn lemma_run_failure_kind(program: Seq<InstructionView>, m: Machine, fuel: nat)
    ensures
        run(program, m, fuel).0 matches Err(e) ==> e.kind == ErrorKind::Interpreter,
    decreases fuel,
{
    if status(program, m) == Status::Running && fuel > 0 {
        match execute(program, m) {
            Err(e) => {},
            Ok(after) => {
                lemma_run_failure_kind(program, after, (fuel - 1) as nat);
            },
        }
    }
}

/// A run is determined by the program, the memory and the bytes fed: two
/// machines that agree in these end in the same way, with the same bytes
/// written.
pub proof fn lemma_run_deterministic(first: Interpreter, second: Interpreter, fuel: nat)
    requires
        first.program() == second.program(),
        first.machine() == second.machine(),
    ensures
        run(first.program(), first.machine(), fuel) == run(
            second.program(),
            second.machine(),
            fuel,
        ),
        run(first.program(), first.machine(), fuel).1.output == run(
            second.program(),
            second.machine(),
            fuel,
        ).1.output,
{
}

} // verus!
