//! The elementary instructions of the intermediate assembly.
use vstd::prelude::*;
use vstd::string::StringExecFns;
use crate::bytecode::{Instruction, InstructionView};
use crate::bytecode::writing::{op, written};
use crate::generation::{Generator, GeneratorState, label_name};
use crate::generation::assembly::{
    lemma_add_reads, lemma_emitted, lemma_sub_reads, minus_code, plus_code,
};
use crate::interpreter::MemoryUnit;
use crate::text::push_decimal;
use crate::tokenizer::{Token, TokenView, literal, plain};

verus! {

/// Whether an address can be written as a literal.
pub open spec fn addressable(address: MemoryUnit) -> bool {
    address <= u8::MAX
}

impl GeneratorState {
    /// `^a`: the code moves to the cell at `address`.
    pub open spec fn goto(self, address: MemoryUnit) -> GeneratorState {
        GeneratorState { pointer: address, ..self.push(plain(Token::Caret)).push(literal(address)) }
    }

    /// `val` times `+`.
    pub open spec fn add(self, val: MemoryUnit) -> GeneratorState {
        self.push_times(plain(Token::Plus), val as nat)
    }

    /// `val` times `-`.
    pub open spec fn sub(self, val: MemoryUnit) -> GeneratorState {
        self.push_times(plain(Token::Minus), val as nat)
    }

    /// `-> val`: the code continues at the instruction of index `val`.
    pub open spec fn goto_ins(self, val: MemoryUnit) -> GeneratorState {
        self.push(plain(Token::Minus)).push(plain(Token::RightAngle)).push(literal(val))
    }

    /// `.`: the code writes the current cell.
    pub open spec fn putchar(self) -> GeneratorState {
        self.push(plain(Token::Dot))
    }

    /// `,`: the code reads into the current cell.
    pub open spec fn getchar(self) -> GeneratorState {
        self.push(plain(Token::Comma))
    }

    /// `: name`.
    pub open spec fn create_label(self, name: Seq<char>) -> GeneratorState {
        self.push(plain(Token::LabelDef)).push(TokenView::Identifier(name))
    }

    /// `@ name`.
    pub open spec fn jump(self, name: Seq<char>) -> GeneratorState {
        self.push(plain(Token::Jmp)).push(TokenView::Identifier(name))
    }

    /// `? name`.
    pub open spec fn jze(self, name: Seq<char>) -> GeneratorState {
        self.push(plain(Token::Jze)).push(TokenView::Identifier(name))
    }

    /// `jnze name`.
    pub open spec fn jnze(self, name: Seq<char>) -> GeneratorState {
        self.push(plain(Token::Jnze)).push(TokenView::Identifier(name))
    }

    /// `* r`.
    pub open spec fn mul(self, r: MemoryUnit) -> GeneratorState {
        self.push(plain(Token::Star)).push(literal(r))
    }

    /// `/ r`.
    pub open spec fn div(self, r: MemoryUnit) -> GeneratorState {
        self.push(plain(Token::Slash)).push(literal(r))
    }

    /// `!`.
    pub open spec fn invert(self) -> GeneratorState {
        self.push(plain(Token::Exclamation))
    }

    /// `<< r`: the current cell is shifted left by the cell at `r`.
    pub open spec fn shift_left(self, r: MemoryUnit) -> GeneratorState {
        self.push(plain(Token::LeftAngle)).push(plain(Token::LeftAngle)).push(literal(r))
    }

    /// `>> r`: the current cell is shifted right by the cell at `r`.
    pub open spec fn shift_right(self, r: MemoryUnit) -> GeneratorState {
        self.push(plain(Token::RightAngle)).push(plain(Token::RightAngle)).push(literal(r))
    }

    /// `[ a ]`: the current cell becomes the cell whose address the cell at
    /// `a` holds.
    pub open spec fn dereference(self, a: MemoryUnit) -> GeneratorState {
        self.push(plain(Token::OpenSquare)).push(literal(a)).push(plain(Token::CloseSquare))
    }
}

/// The literal token of an address.
fn literal_of(address: MemoryUnit) -> (t: Token)
    requires
        addressable(address),
    ensures
        t@ == literal(address),
{
    Token::Literal(address as u8)
}

/// The name of a label.
pub(crate) fn label(id: u64, purpose: &str) -> (name: String)
    ensures
        name@ == label_name(id as nat, purpose@),
{
    let mut name = String::from_str("__");
    push_decimal(&mut name, id);
    name.append("_");
    name.append(purpose);
    name
}

impl Generator {
    /// Emits the token `t` `n` times.
    fn push_times(&mut self, t: Token, n: MemoryUnit)
        requires
            old(self).wf(),
        ensures
            final(self).follows(old(self), old(self)@.push_times(t@, n as nat)),
            final(self)@.cells == old(self)@.cells,
            final(self)@.pointer == old(self)@.pointer,
            final(self)@.labels == old(self)@.labels,
    {
        let mut i: MemoryUnit = 0;
        while i < n
            invariant
                i <= n,
                self.follows(old(self), old(self)@.push_times(t@, i as nat)),
                self@.cells == old(self)@.cells,
                self@.pointer == old(self)@.pointer,
                self@.labels == old(self)@.labels,
            decreases n - i,
        {
            self.push(t.clone());
            i += 1;
        }
    }

    fn push_name(&mut self, name: &str)
        requires
            old(self).wf(),
        ensures
            final(self).follows(old(self), old(self)@.push(TokenView::Identifier(name@))),
    {
        self.push(Token::Identifier(String::from_str(name)));
    }

    /// Moves to the cell at `addr`.
    pub fn goto(&mut self, addr: MemoryUnit)
        requires
            old(self).wf(),
            addressable(addr),
        ensures
            final(self).emits(old(self), old(self)@.goto(addr), seq![op(Instruction::MoveStack(addr))]),
            final(self).keeps(old(self), old(self)@.goto(addr)),
    {
        self.pointer = addr;
        self.push(Token::Caret);
        self.push(literal_of(addr));
        proof {
            if old(self)@.reads() {
                assert(self@.output =~= old(self)@.output + written(op(Instruction::MoveStack(addr))));
                lemma_emitted(old(self)@, self@, op(Instruction::MoveStack(addr)));
            }
        }
    }

    /// Adds `val` to the current cell.
    pub fn add(&mut self, val: MemoryUnit)
        requires
            old(self).wf(),
        ensures
            final(self).follows(old(self), old(self)@.add(val)),
            !old(self)@.ends_with(Token::Plus) ==> final(self).emits(
                old(self),
                old(self)@.add(val),
                plus_code(val),
            ) && final(self).keeps(old(self), old(self)@.add(val)),
            final(self)@.cells == old(self)@.cells,
            final(self)@.pointer == old(self)@.pointer,
            final(self)@.labels == old(self)@.labels,
    {
        self.push_times(Token::Plus, val);
        proof {
            if old(self)@.reads() && !old(self)@.ends_with(Token::Plus) {
                lemma_add_reads(old(self)@, val);
            }
        }
    }

    /// Subtracts `val` from the current cell.
    pub fn sub(&mut self, val: MemoryUnit)
        requires
            old(self).wf(),
        ensures
            final(self).follows(old(self), old(self)@.sub(val)),
            !old(self)@.ends_with(Token::Minus) ==> final(self).emits(
                old(self),
                old(self)@.sub(val),
                minus_code(val),
            ) && final(self).keeps(old(self), old(self)@.sub(val)),
            final(self)@.cells == old(self)@.cells,
            final(self)@.pointer == old(self)@.pointer,
            final(self)@.labels == old(self)@.labels,
    {
        self.push_times(Token::Minus, val);
        proof {
            if old(self)@.reads() && !old(self)@.ends_with(Token::Minus) {
                lemma_sub_reads(old(self)@, val);
            }
        }
    }

    /// Continues at the instruction of index `val`.
    pub fn goto_ins(&mut self, val: MemoryUnit)
        requires
            old(self).wf(),
            addressable(val),
        ensures
            final(self).follows(old(self), old(self)@.goto_ins(val)),
            !old(self)@.ends_with(Token::Minus) ==> final(self).emits(
                old(self),
                old(self)@.goto_ins(val),
                seq![op(Instruction::Goto(val))],
            ) && final(self).keeps(old(self), old(self)@.goto_ins(val)),
    {
        self.push(Token::Minus);
        self.push(Token::RightAngle);
        self.push(literal_of(val));
        proof {
            if old(self)@.reads() && !old(self)@.ends_with(Token::Minus) {
                assert(self@.output =~= old(self)@.output + written(op(Instruction::Goto(val))));
                lemma_emitted(old(self)@, self@, op(Instruction::Goto(val)));
            }
        }
    }

    /// Writes the current cell.
    pub fn putchar(&mut self)
        requires
            old(self).wf(),
        ensures
            final(self).emits(old(self), old(self)@.putchar(), seq![op(Instruction::Print)]),
            final(self).keeps(old(self), old(self)@.putchar()),
    {
        self.push(Token::Dot);
        proof {
            if old(self)@.reads() {
                assert(self@.output =~= old(self)@.output + written(op(Instruction::Print)));
                lemma_emitted(old(self)@, self@, op(Instruction::Print));
            }
        }
    }

    /// Reads into the current cell.
    pub fn getchar(&mut self)
        requires
            old(self).wf(),
        ensures
            final(self).emits(old(self), old(self)@.getchar(), seq![op(Instruction::UserInput)]),
            final(self).keeps(old(self), old(self)@.getchar()),
    {
        self.push(Token::Comma);
        proof {
            if old(self)@.reads() {
                assert(self@.output =~= old(self)@.output + written(op(Instruction::UserInput)));
                lemma_emitted(old(self)@, self@, op(Instruction::UserInput));
            }
        }
    }

    /// Defines the label `name`.
    pub fn create_label(&mut self, name: &str)
        requires
            old(self).wf(),
        ensures
            final(self).emits(old(self), old(self)@.create_label(name@), seq![InstructionView::Label(name@)]),
    {
        self.push(Token::LabelDef);
        self.push_name(name);
        proof {
            if old(self)@.reads() {
                assert(self@.output =~= old(self)@.output + written(InstructionView::Label(name@)));
                lemma_emitted(old(self)@, self@, InstructionView::Label(name@));
            }
        }
    }

    /// Continues at the label `name`.
    pub fn jump(&mut self, name: &str)
        requires
            old(self).wf(),
        ensures
            final(self).emits(old(self), old(self)@.jump(name@), seq![InstructionView::Jump(name@)]),
    {
        self.push(Token::Jmp);
        self.push_name(name);
        proof {
            if old(self)@.reads() {
                assert(self@.output =~= old(self)@.output + written(InstructionView::Jump(name@)));
                lemma_emitted(old(self)@, self@, InstructionView::Jump(name@));
            }
        }
    }

    /// Continues at the label `name` when the current cell is zero.
    pub fn jze(&mut self, name: &str)
        requires
            old(self).wf(),
        ensures
            final(self).emits(old(self), old(self)@.jze(name@), seq![InstructionView::JumpZero(name@)]),
    {
        self.push(Token::Jze);
        self.push_name(name);
        proof {
            if old(self)@.reads() {
                assert(self@.output =~= old(self)@.output + written(InstructionView::JumpZero(name@)));
                lemma_emitted(old(self)@, self@, InstructionView::JumpZero(name@));
            }
        }
    }

    /// Continues at the label `name` when the current cell is not zero.
    pub fn jnze(&mut self, name: &str)
        requires
            old(self).wf(),
        ensures
            final(self).emits(old(self), old(self)@.jnze(name@), seq![InstructionView::JumpNotZero(name@)]),
    {
        self.push(Token::Jnze);
        self.push_name(name);
        proof {
            if old(self)@.reads() {
                assert(self@.output =~= old(self)@.output + written(InstructionView::JumpNotZero(name@)));
                lemma_emitted(old(self)@, self@, InstructionView::JumpNotZero(name@));
            }
        }
    }

    /// Multiplies the current cell by the cell at `r`.
    pub fn mul(&mut self, r: MemoryUnit)
        requires
            old(self).wf(),
            addressable(r),
        ensures
            final(self).emits(old(self), old(self)@.mul(r), seq![op(Instruction::Multiply(r))]),
            final(self).keeps(old(self), old(self)@.mul(r)),
    {
        self.push(Token::Star);
        self.push(literal_of(r));
        proof {
            if old(self)@.reads() {
                assert(self@.output =~= old(self)@.output + written(op(Instruction::Multiply(r))));
                lemma_emitted(old(self)@, self@, op(Instruction::Multiply(r)));
            }
        }
    }

    /// Divides the current cell by the cell at `r`, which receives the
    /// remainder.
    pub fn div(&mut self, r: MemoryUnit)
        requires
            old(self).wf(),
            addressable(r),
        ensures
            final(self).emits(old(self), old(self)@.div(r), seq![op(Instruction::Divide(r))]),
            final(self).keeps(old(self), old(self)@.div(r)),
    {
        self.push(Token::Slash);
        self.push(literal_of(r));
        proof {
            if old(self)@.reads() {
                assert(self@.output =~= old(self)@.output + written(op(Instruction::Divide(r))));
                lemma_emitted(old(self)@, self@, op(Instruction::Divide(r)));
            }
        }
    }

    /// Turns the current cell into one when it is zero, else into zero.
    pub fn invert(&mut self)
        requires
            old(self).wf(),
        ensures
            final(self).emits(old(self), old(self)@.invert(), seq![op(Instruction::Invert)]),
            final(self).keeps(old(self), old(self)@.invert()),
    {
        self.push(Token::Exclamation);
        proof {
            if old(self)@.reads() {
                assert(self@.output =~= old(self)@.output + written(op(Instruction::Invert)));
                lemma_emitted(old(self)@, self@, op(Instruction::Invert));
            }
        }
    }

    /// Shifts the current cell left by the cell at `r`.
    pub fn shift_left(&mut self, r: MemoryUnit)
        requires
            old(self).wf(),
            addressable(r),
        ensures
            final(self).emits(old(self), old(self)@.shift_left(r), seq![op(Instruction::ShiftL(r))]),
            final(self).keeps(old(self), old(self)@.shift_left(r)),
    {
        self.push(Token::LeftAngle);
        self.push(Token::LeftAngle);
        self.push(literal_of(r));
        proof {
            if old(self)@.reads() {
                assert(self@.output =~= old(self)@.output + written(op(Instruction::ShiftL(r))));
                lemma_emitted(old(self)@, self@, op(Instruction::ShiftL(r)));
            }
        }
    }

    /// Shifts the current cell right by the cell at `r`.
    pub fn shift_right(&mut self, r: MemoryUnit)
        requires
            old(self).wf(),
            addressable(r),
        ensures
            final(self).follows(old(self), old(self)@.shift_right(r)),
            !old(self)@.ends_with(Token::Minus) ==> final(self).emits(
                old(self),
                old(self)@.shift_right(r),
                seq![op(Instruction::ShiftR(r))],
            ) && final(self).keeps(old(self), old(self)@.shift_right(r)),
    {
        self.push(Token::RightAngle);
        self.push(Token::RightAngle);
        self.push(literal_of(r));
        proof {
            if old(self)@.reads() && !old(self)@.ends_with(Token::Minus) {
                assert(self@.output =~= old(self)@.output + written(op(Instruction::ShiftR(r))));
                lemma_emitted(old(self)@, self@, op(Instruction::ShiftR(r)));
            }
        }
    }

    /// Loads into the current cell the cell whose address the cell at `a`
    /// holds.
    pub fn dereference(&mut self, a: MemoryUnit)
        requires
            old(self).wf(),
            addressable(a),
        ensures
            final(self).emits(old(self), old(self)@.dereference(a), seq![op(Instruction::Dereference(a))]),
            final(self).keeps(old(self), old(self)@.dereference(a)),
    {
        self.push(Token::OpenSquare);
        self.push(literal_of(a));
        self.push(Token::CloseSquare);
        proof {
            if old(self)@.reads() {
                assert(self@.output =~= old(self)@.output + written(op(Instruction::Dereference(a))));
                lemma_emitted(old(self)@, self@, op(Instruction::Dereference(a)));
            }
        }
    }
}

} // verus!
