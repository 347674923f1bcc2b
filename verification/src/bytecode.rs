//! Bytecode instructions and the assembler from intermediate tokens.
use vstd::prelude::*;
use vstd::string::StringExecFns;
use crate::error::{DSAsmError, ErrorKind, Failure, failure, kind_name};
use crate::interpreter::MemoryUnit;
use crate::processor::{Processor, ProcessorInput, expected_message};
use crate::text::{decimal, push_decimal, push_quoted, quoted};
use crate::tokenizer::{Token, TokenView, token_at, token_text, token_views};

pub mod writing;

verus! {

/// One instruction of the bytecode.
#[derive(Debug, PartialEq, Eq, PartialOrd, Ord)]
pub enum Instruction {
    /// Sets the stack pointer to an address.
    MoveStack(MemoryUnit),
    /// Adds a number to the current cell, wrapping.
    Increment(MemoryUnit),
    /// Subtracts a number from the current cell, wrapping.
    Decrement(MemoryUnit),
    /// Reads one byte of input into the current cell.
    UserInput,
    /// Writes the low eight bits of the current cell.
    Print,
    /// Names the place of the next instruction.
    Label(String),
    /// Continues at a label.
    Jump(String),
    /// Continues at a label when the current cell is zero.
    JumpZero(String),
    /// Continues at a label when the current cell is not zero.
    JumpNotZero(String),
    /// Turns zero into one and everything else into zero.
    Invert,
    /// Multiplies the current cell by the cell at an address, wrapping.
    Multiply(MemoryUnit),
    /// Divides the current cell by the cell at an address; the quotient stays in the current cell, the remainder goes to the address.
    Divide(MemoryUnit),
    /// Sets the current cell to zero.
    Clear,
    /// Loads into the current cell the cell whose address the cell at an address holds.
    Dereference(MemoryUnit),
    /// Continues at an instruction index.
    Goto(MemoryUnit),
    /// Sets the current cell to one when it is greater than the cell at an address, else to two.
    Compare(MemoryUnit),
    /// Shifts the current cell left by the cell at an address, taken modulo the cell width.
    ShiftL(MemoryUnit),
    /// Shifts the current cell right by the cell at an address, taken modulo the cell width.
    ShiftR(MemoryUnit),
    /// Ors the cell at an address into the current cell.
    Or(MemoryUnit),
    /// What a cursor reads past the end of its instructions.
    Invalid,
}

/// The mathematical content of an instruction: a label's name is the
/// sequence of its characters; every other instruction stands for itself.
pub enum InstructionView {
    Label(Seq<char>),
    Jump(Seq<char>),
    JumpZero(Seq<char>),
    JumpNotZero(Seq<char>),
    Plain(Instruction),
}

impl View for Instruction {
    type V = InstructionView;

    open spec fn view(&self) -> InstructionView {
        match *self {
            Instruction::Label(name) => InstructionView::Label(name@),
            Instruction::Jump(name) => InstructionView::Jump(name@),
            Instruction::JumpZero(name) => InstructionView::JumpZero(name@),
            Instruction::JumpNotZero(name) => InstructionView::JumpNotZero(name@),
            other => InstructionView::Plain(other),
        }
    }
}

/// The views of a sequence of instructions.
pub open spec fn instruction_views(program: Seq<Instruction>) -> Seq<InstructionView> {
    program.map_values(|i: Instruction| i@)
}

/// The printed form of an instruction without a name in it.
pub open spec fn plain_instruction_text(i: Instruction) -> Seq<char> {
    match i {
        Instruction::MoveStack(n) => "MoveStack"@ + "("@ + decimal(n as nat) + ")"@,
        Instruction::Increment(n) => "Increment"@ + "("@ + decimal(n as nat) + ")"@,
        Instruction::Decrement(n) => "Decrement"@ + "("@ + decimal(n as nat) + ")"@,
        Instruction::UserInput => "UserInput"@,
        Instruction::Print => "Print"@,
        Instruction::Label(_) => "Label"@,
        Instruction::Jump(_) => "Jump"@,
        Instruction::JumpZero(_) => "JumpZero"@,
        Instruction::JumpNotZero(_) => "JumpNotZero"@,
        Instruction::Invert => "Invert"@,
        Instruction::Multiply(n) => "Multiply"@ + "("@ + decimal(n as nat) + ")"@,
        Instruction::Divide(n) => "Divide"@ + "("@ + decimal(n as nat) + ")"@,
        Instruction::Clear => "Clear"@,
        Instruction::Dereference(n) => "Dereference"@ + "("@ + decimal(n as nat) + ")"@,
        Instruction::Goto(n) => "Goto"@ + "("@ + decimal(n as nat) + ")"@,
        Instruction::Compare(n) => "Compare"@ + "("@ + decimal(n as nat) + ")"@,
        Instruction::ShiftL(n) => "ShiftL"@ + "("@ + decimal(n as nat) + ")"@,
        Instruction::ShiftR(n) => "ShiftR"@ + "("@ + decimal(n as nat) + ")"@,
        Instruction::Or(n) => "Or"@ + "("@ + decimal(n as nat) + ")"@,
        Instruction::Invalid => "Invalid"@,
    }
}

/// The printed form of an instruction.
pub open spec fn instruction_text(i: InstructionView) -> Seq<char> {
    match i {
        InstructionView::Label(name) => "Label(\""@ + name + "\")"@,
        InstructionView::Jump(name) => "Jump(\""@ + name + "\")"@,
        InstructionView::JumpZero(name) => "JumpZero(\""@ + name + "\")"@,
        InstructionView::JumpNotZero(name) => "JumpNotZero(\""@ + name + "\")"@,
        InstructionView::Plain(p) => plain_instruction_text(p),
    }
}

impl Clone for Instruction {
    fn clone(&self) -> (r: Instruction)
        ensures
            r == *self,
    {
        match self {
            Instruction::MoveStack(n) => Instruction::MoveStack(*n),
            Instruction::Increment(n) => Instruction::Increment(*n),
            Instruction::Decrement(n) => Instruction::Decrement(*n),
            Instruction::UserInput => Instruction::UserInput,
            Instruction::Print => Instruction::Print,
            Instruction::Label(name) => Instruction::Label(name.clone()),
            Instruction::Jump(name) => Instruction::Jump(name.clone()),
            Instruction::JumpZero(name) => Instruction::JumpZero(name.clone()),
            Instruction::JumpNotZero(name) => Instruction::JumpNotZero(name.clone()),
            Instruction::Invert => Instruction::Invert,
            Instruction::Multiply(n) => Instruction::Multiply(*n),
            Instruction::Divide(n) => Instruction::Divide(*n),
            Instruction::Clear => Instruction::Clear,
            Instruction::Dereference(n) => Instruction::Dereference(*n),
            Instruction::Goto(n) => Instruction::Goto(*n),
            Instruction::Compare(n) => Instruction::Compare(*n),
            Instruction::ShiftL(n) => Instruction::ShiftL(*n),
            Instruction::ShiftR(n) => Instruction::ShiftR(*n),
            Instruction::Or(n) => Instruction::Or(*n),
            Instruction::Invalid => Instruction::Invalid,
        }
    }
}

impl Default for Instruction {
    fn default() -> (r: Instruction)
        ensures
            r == Instruction::Invalid,
    {
        Instruction::Invalid
    }
}

fn with_number(name: &str, n: MemoryUnit) -> (s: String)
    ensures
        s@ == name@ + "("@ + decimal(n as nat) + ")"@,
{
    let mut s = String::from_str(name);
    s.append("(");
    push_decimal(&mut s, n as u64);
    s.append(")");
    s
}

fn with_name(head: &str, name: &String) -> (s: String)
    ensures
        s@ == head@ + name@ + "\")"@,
{
    let mut s = String::from_str(head);
    s.append(name.as_str());
    s.append("\")");
    s
}

impl Instruction {
    /// The instruction's printed form.
    pub fn to_string(&self) -> (s: String)
        ensures
            s@ == instruction_text(self@),
    {
        match self {
            Instruction::MoveStack(n) => with_number("MoveStack", *n),
            Instruction::Increment(n) => with_number("Increment", *n),
            Instruction::Decrement(n) => with_number("Decrement", *n),
            Instruction::UserInput => String::from_str("UserInput"),
            Instruction::Print => String::from_str("Print"),
            Instruction::Label(name) => with_name("Label(\"", name),
            Instruction::Jump(name) => with_name("Jump(\"", name),
            Instruction::JumpZero(name) => with_name("JumpZero(\"", name),
            Instruction::JumpNotZero(name) => with_name("JumpNotZero(\"", name),
            Instruction::Invert => String::from_str("Invert"),
            Instruction::Multiply(n) => with_number("Multiply", *n),
            Instruction::Divide(n) => with_number("Divide", *n),
            Instruction::Clear => String::from_str("Clear"),
            Instruction::Dereference(n) => with_number("Dereference", *n),
            Instruction::Goto(n) => with_number("Goto", *n),
            Instruction::Compare(n) => with_number("Compare", *n),
            Instruction::ShiftL(n) => with_number("ShiftL", *n),
            Instruction::ShiftR(n) => with_number("ShiftR", *n),
            Instruction::Or(n) => with_number("Or", *n),
            Instruction::Invalid => String::from_str("Invalid"),
        }
    }
}

impl ProcessorInput for Instruction {
    open spec fn blank() -> Instruction {
        Instruction::Invalid
    }

    open spec fn agrees(&self, other: &Instruction) -> bool {
        self@ == other@
    }

    open spec fn text(&self) -> Seq<char> {
        instruction_text(self@)
    }

    fn filler() -> (r: Instruction) {
        Instruction::Invalid
    }

    fn duplicate(&self) -> (r: Instruction) {
        self.clone()
    }

    fn same_as(&self, other: &Instruction) -> (b: bool) {
        match self {
            Instruction::MoveStack(n) => match other {
                Instruction::MoveStack(m) => *n == *m,
                _ => false,
            },
            Instruction::Increment(n) => match other {
                Instruction::Increment(m) => *n == *m,
                _ => false,
            },
            Instruction::Decrement(n) => match other {
                Instruction::Decrement(m) => *n == *m,
                _ => false,
            },
            Instruction::UserInput => matches!(other, Instruction::UserInput),
            Instruction::Print => matches!(other, Instruction::Print),
            Instruction::Label(name) => match other {
                Instruction::Label(second) => *name == *second,
                _ => false,
            },
            Instruction::Jump(name) => match other {
                Instruction::Jump(second) => *name == *second,
                _ => false,
            },
            Instruction::JumpZero(name) => match other {
                Instruction::JumpZero(second) => *name == *second,
                _ => false,
            },
            Instruction::JumpNotZero(name) => match other {
                Instruction::JumpNotZero(second) => *name == *second,
                _ => false,
            },
            Instruction::Invert => matches!(other, Instruction::Invert),
            Instruction::Multiply(n) => match other {
                Instruction::Multiply(m) => *n == *m,
                _ => false,
            },
            Instruction::Divide(n) => match other {
                Instruction::Divide(m) => *n == *m,
                _ => false,
            },
            Instruction::Clear => matches!(other, Instruction::Clear),
            Instruction::Dereference(n) => match other {
                Instruction::Dereference(m) => *n == *m,
                _ => false,
            },
            Instruction::Goto(n) => match other {
                Instruction::Goto(m) => *n == *m,
                _ => false,
            },
            Instruction::Compare(n) => match other {
                Instruction::Compare(m) => *n == *m,
                _ => false,
            },
            Instruction::ShiftL(n) => match other {
                Instruction::ShiftL(m) => *n == *m,
                _ => false,
            },
            Instruction::ShiftR(n) => match other {
                Instruction::ShiftR(m) => *n == *m,
                _ => false,
            },
            Instruction::Or(n) => match other {
                Instruction::Or(m) => *n == *m,
                _ => false,
            },
            Instruction::Invalid => matches!(other, Instruction::Invalid),
        }
    }

    fn describe(&self) -> (s: String) {
        self.to_string()
    }
}

/// The number of tokens from `from` on that are all the plain token `t`.
pub open spec fn same_run(tokens: Seq<TokenView>, from: int, t: Token) -> nat
    decreases
        (if from < tokens.len() {
            tokens.len() - from
        } else {
            0
        }),
{
    if 0 <= from < tokens.len() && tokens[from] == TokenView::Plain(t) {
        1 + same_run(tokens, from + 1, t)
    } else {
        0
    }
}

/// The count that a run of `length` tokens stands for: the length, wrapped
/// to the width of a cell.
pub open spec fn run_count(length: nat) -> MemoryUnit {
    (length % 0x10000) as MemoryUnit
}

/// The message for a missing number; `quote` says whether the token found
/// in its place is shown between apostrophes.
pub open spec fn expected_literal_message(found: TokenView, quote: bool) -> Seq<char> {
    if quote {
        "Expected literal instead of "@ + quoted(token_text(found))
    } else {
        "Expected literal instead of "@ + token_text(found)
    }
}

/// The message for a missing name.
pub open spec fn expected_identifier_message(found: TokenView) -> Seq<char> {
    "Expected Identifier instead of "@ + quoted(token_text(found))
}

/// The message for a token that starts no instruction.
pub open spec fn unexpected_token_message(found: TokenView) -> Seq<char> {
    "Unexpected Token "@ + quoted(token_text(found))
}

/// The message for a missing closing bracket at `pos`.
pub open spec fn missing_bracket_message(pos: nat) -> Seq<char> {
    kind_name(ErrorKind::Processor) + ": "@ + expected_message(
        token_text(TokenView::Plain(Token::CloseSquare)),
        pos,
    )
}

/// The number at `pos`, which an instruction takes as its operand.
pub open spec fn literal_operand(tokens: Seq<TokenView>, pos: int, quote: bool) -> Result<
    MemoryUnit,
    Failure,
> {
    match token_at(tokens, pos) {
        TokenView::Plain(Token::Literal(n)) => Ok(n as MemoryUnit),
        found => Err(failure(ErrorKind::Converter, expected_literal_message(found, quote))),
    }
}

/// The name at `pos`, which a label or a jump takes as its operand.
pub open spec fn name_operand(tokens: Seq<TokenView>, pos: int) -> Result<Seq<char>, Failure> {
    match token_at(tokens, pos) {
        TokenView::Identifier(name) => Ok(name),
        found => Err(failure(ErrorKind::Converter, expected_identifier_message(found))),
    }
}

/// One step of the assembler.
pub struct Decoded {
    /// The instruction read, or the failure.
    pub outcome: Result<InstructionView, Failure>,
    /// How many tokens were read after the first.
    pub more: nat,
}

/// The instruction made of an operand, when there is one.
pub open spec fn with_operand(
    operand: Result<MemoryUnit, Failure>,
    make: spec_fn(MemoryUnit) -> Instruction,
    more: nat,
) -> Decoded {
    match operand {
        Ok(n) => Decoded { outcome: Ok(InstructionView::Plain(make(n))), more },
        Err(e) => Decoded { outcome: Err(e), more },
    }
}

/// The instruction made of a name, when there is one.
pub open spec fn with_label(
    operand: Result<Seq<char>, Failure>,
    make: spec_fn(Seq<char>) -> InstructionView,
) -> Decoded {
    match operand {
        Ok(name) => Decoded { outcome: Ok(make(name)), more: 1 },
        Err(e) => Decoded { outcome: Err(e), more: 1 },
    }
}

/// An instruction without operand.
pub open spec fn bare(i: Instruction) -> Decoded {
    Decoded { outcome: Ok(InstructionView::Plain(i)), more: 0 }
}

/// The instruction that starts at `pos`, which lies inside `tokens`.
pub open spec fn decode(tokens: Seq<TokenView>, pos: int) -> Decoded {
    match tokens[pos] {
        TokenView::Plain(Token::Caret) => with_operand(
            literal_operand(tokens, pos + 1, false),
            |n: MemoryUnit| Instruction::MoveStack(n),
            1,
        ),
        TokenView::Plain(Token::Plus) => {
            let more = same_run(tokens, pos + 1, Token::Plus);
            Decoded {
                outcome: Ok(InstructionView::Plain(Instruction::Increment(run_count(1 + more)))),
                more,
            }
        },
        TokenView::Plain(Token::Minus) => {
            if token_at(tokens, pos + 1) == TokenView::Plain(Token::RightAngle) {
                with_operand(
                    literal_operand(tokens, pos + 2, false),
                    |n: MemoryUnit| Instruction::Goto(n),
                    2,
                )
            } else {
                let more = same_run(tokens, pos + 1, Token::Minus);
                Decoded {
                    outcome: Ok(
                        InstructionView::Plain(Instruction::Decrement(run_count(1 + more))),
                    ),
                    more,
                }
            }
        },
        TokenView::Plain(Token::Comma) => bare(Instruction::UserInput),
        TokenView::Plain(Token::Dot) => bare(Instruction::Print),
        TokenView::Plain(Token::LabelDef) => with_label(
            name_operand(tokens, pos + 1),
            |name: Seq<char>| InstructionView::Label(name),
        ),
        TokenView::Plain(Token::Jmp) => with_label(
            name_operand(tokens, pos + 1),
            |name: Seq<char>| InstructionView::Jump(name),
        ),
        TokenView::Plain(Token::Jze) => with_label(
            name_operand(tokens, pos + 1),
            |name: Seq<char>| InstructionView::JumpZero(name),
        ),
        TokenView::Plain(Token::Jnze) => with_label(
            name_operand(tokens, pos + 1),
            |name: Seq<char>| InstructionView::JumpNotZero(name),
        ),
        TokenView::Plain(Token::Exclamation) => bare(Instruction::Invert),
        TokenView::Plain(Token::Star) => with_operand(
            literal_operand(tokens, pos + 1, true),
            |n: MemoryUnit| Instruction::Multiply(n),
            1,
        ),
        TokenView::Plain(Token::Slash) => with_operand(
            literal_operand(tokens, pos + 1, true),
            |n: MemoryUnit| Instruction::Divide(n),
            1,
        ),
        TokenView::Plain(Token::Tilde) => bare(Instruction::Clear),
        TokenView::Plain(Token::OpenSquare) => {
            let operand = literal_operand(tokens, pos + 1, true);
            if operand is Ok && token_at(tokens, pos + 2) != TokenView::Plain(Token::CloseSquare) {
                Decoded {
                    outcome: Err(
                        failure(ErrorKind::Converter, missing_bracket_message((pos + 2) as nat)),
                    ),
                    more: 1,
                }
            } else {
                with_operand(operand, |n: MemoryUnit| Instruction::Dereference(n), 2)
            }
        },
        TokenView::Plain(Token::Apostrophe) => with_operand(
            literal_operand(tokens, pos + 1, true),
            |n: MemoryUnit| Instruction::Compare(n),
            1,
        ),
        TokenView::Plain(Token::Pipe) => with_operand(
            literal_operand(tokens, pos + 1, true),
            |n: MemoryUnit| Instruction::Or(n),
            1,
        ),
        found => {
            if found == TokenView::Plain(Token::LeftAngle) && token_at(tokens, pos + 1)
                == TokenView::Plain(Token::LeftAngle) {
                with_operand(
                    literal_operand(tokens, pos + 2, true),
                    |n: MemoryUnit| Instruction::ShiftL(n),
                    2,
                )
            } else if found == TokenView::Plain(Token::RightAngle) && token_at(tokens, pos + 1)
                == TokenView::Plain(Token::RightAngle) {
                with_operand(
                    literal_operand(tokens, pos + 2, true),
                    |n: MemoryUnit| Instruction::ShiftR(n),
                    2,
                )
            } else {
                Decoded {
                    outcome: Err(failure(ErrorKind::Converter, unexpected_token_message(found))),
                    more: 0,
                }
            }
        },
    }
}

/// `done` followed by what `rest` holds, or the failure of `rest`.
pub open spec fn then_instructions(
    done: Seq<InstructionView>,
    rest: Result<Seq<InstructionView>, Failure>,
) -> Result<Seq<InstructionView>, Failure> {
    match rest {
        Ok(r) => Ok(done + r),
        Err(e) => Err(e),
    }
}

/// The instructions of `tokens` from `pos` on, or the first failure.
pub open spec fn assemble_from(tokens: Seq<TokenView>, pos: int) -> Result<
    Seq<InstructionView>,
    Failure,
>
    decreases
        (if pos < tokens.len() {
            tokens.len() - pos
        } else {
            0
        }),
{
    if pos < 0 || pos >= tokens.len() {
        Ok(Seq::empty())
    } else {
        let d = decode(tokens, pos);
        let rest = assemble_from(tokens, pos + 1 + d.more);
        match d.outcome {
            Err(e) => Err(e),
            Ok(i) => then_instructions(seq![i], rest),
        }
    }
}

/// The instructions that a sequence of intermediate tokens stands for.
pub open spec fn assemble(tokens: Seq<TokenView>) -> Result<Seq<InstructionView>, Failure> {
    assemble_from(tokens, 0)
}

/// The assembler: a cursor over intermediate tokens.
pub struct BytecodeConverter {
    base: Processor<Token>,
}

impl BytecodeConverter {
    /// The tokens to assemble.
    pub closed spec fn tokens(&self) -> Seq<TokenView> {
        token_views(self.base.items())
    }

    /// The position of the next token to read.
    pub closed spec fn position(&self) -> nat {
        self.base.position()
    }

    /// An assembler for the tokens `i`.
    pub fn new(i: Vec<Token>) -> (c: BytecodeConverter)
        ensures
            c.tokens() == token_views(i@),
            c.position() == 0,
    {
        BytecodeConverter { base: Processor::new(i) }
    }

    fn get_identifier(&mut self) -> (r: Result<String, DSAsmError>)
        ensures
            final(self).tokens() == old(self).tokens(),
            final(self).position() == old(self).base.advanced(),
            match r {
                Ok(name) => name_operand(old(self).tokens(), old(self).position() as int) == Ok::<
                    Seq<char>,
                    Failure,
                >(name@),
                Err(e) => name_operand(old(self).tokens(), old(self).position() as int) == Err::<
                    Seq<char>,
                    Failure,
                >(e@),
            },
    {
        match self.base.consume() {
            Token::Identifier(id) => Ok(id),
            t => {
                let mut message = String::from_str("Expected Identifier instead of ");
                push_quoted(&mut message, t.to_string().as_str());
                Err(DSAsmError::ConverterError(message))
            },
        }
    }

    fn get_literal(&mut self, quote: bool) -> (r: Result<MemoryUnit, DSAsmError>)
        ensures
            final(self).tokens() == old(self).tokens(),
            final(self).position() == old(self).base.advanced(),
            match r {
                Ok(n) => literal_operand(old(self).tokens(), old(self).position() as int, quote)
                    == Ok::<MemoryUnit, Failure>(n),
                Err(e) => literal_operand(old(self).tokens(), old(self).position() as int, quote)
                    == Err::<MemoryUnit, Failure>(e@),
            },
    {
        match self.base.consume() {
            Token::Literal(lit) => Ok(lit as MemoryUnit),
            t => {
                let mut message = String::from_str("Expected literal instead of ");
                if quote {
                    push_quoted(&mut message, t.to_string().as_str());
                } else {
                    message.append(t.to_string().as_str());
                }
                Err(DSAsmError::ConverterError(message))
            },
        }
    }

    /// Reads the rest of a run of the plain token `t` and counts it,
    /// starting from one for the token already read.
    fn count_run(&mut self, t: Token) -> (count: MemoryUnit)
        requires
            t@ == TokenView::Plain(t),
            t != Token::Invalid,
            old(self).position() <= old(self).tokens().len(),
        ensures
            final(self).tokens() == old(self).tokens(),
            final(self).position() == old(self).position() + same_run(
                old(self).tokens(),
                old(self).position() as int,
                t,
            ),
            final(self).position() <= final(self).tokens().len(),
            count == run_count(1 + same_run(old(self).tokens(), old(self).position() as int, t)),
    {
        let mut count: MemoryUnit = 1;
        let ghost tokens = self.tokens();
        let ghost start = self.position();
        let ghost mut seen: nat = 0;
        loop
            invariant
                t@ == TokenView::Plain(t),
                t != Token::Invalid,
                self.tokens() == tokens,
                self.position() == start + seen,
                self.position() <= tokens.len(),
                count == run_count(1 + seen),
                same_run(tokens, start as int, t) == seen + same_run(
                    tokens,
                    self.position() as int,
                    t,
                ),
            ensures
                self.tokens() == tokens,
                self.position() == start + same_run(tokens, start as int, t),
                self.position() <= tokens.len(),
                count == run_count(1 + same_run(tokens, start as int, t)),
            decreases tokens.len() - self.position(),
        {
            let more = self.base.tryconsume(t.clone());
            if !more {
                break ;
            }
            count = count.wrapping_add(1);
            proof {
                seen = seen + 1;
            }
        }
        count
    }

    /// Reads one instruction at the cursor.
    fn decode_one(&mut self) -> (r: Result<Instruction, DSAsmError>)
        requires
            old(self).position() < old(self).tokens().len(),
        ensures
            final(self).tokens() == old(self).tokens(),
            ({
                let d = decode(old(self).tokens(), old(self).position() as int);
                match r {
                    Ok(i) => {
                        &&& d.outcome == Ok::<InstructionView, Failure>(i@)
                        &&& final(self).position() == old(self).position() + 1 + d.more
                        &&& final(self).position() <= final(self).tokens().len()
                    },
                    Err(e) => d.outcome == Err::<InstructionView, Failure>(e@),
                }
            }),
    {
        let ghost tokens = self.tokens();
        let ghost pos = self.position() as int;
        let first = self.base.consume();
        let r = match first {
            Token::Caret => Instruction::MoveStack(self.get_literal(false)?),
            Token::Plus => Instruction::Increment(self.count_run(Token::Plus)),
            Token::Minus => {
                if self.base.tryconsume(Token::RightAngle) {
                    Instruction::Goto(self.get_literal(false)?)
                } else {
                    Instruction::Decrement(self.count_run(Token::Minus))
                }
            },
            Token::Comma => Instruction::UserInput,
            Token::Dot => Instruction::Print,
            Token::LabelDef => Instruction::Label(self.get_identifier()?),
            Token::Jmp => Instruction::Jump(self.get_identifier()?),
            Token::Jze => Instruction::JumpZero(self.get_identifier()?),
            Token::Jnze => Instruction::JumpNotZero(self.get_identifier()?),
            Token::Exclamation => Instruction::Invert,
            Token::Star => Instruction::Multiply(self.get_literal(true)?),
            Token::Slash => Instruction::Divide(self.get_literal(true)?),
            Token::Tilde => Instruction::Clear,
            Token::OpenSquare => {
                let val = self.get_literal(true)?;
                match self.base.require(Token::CloseSquare) {
                    Ok(_) => {},
                    Err(e) => {
                        return Err(DSAsmError::ConverterError(e.to_string()));
                    },
                }
                Instruction::Dereference(val)
            },
            Token::Apostrophe => Instruction::Compare(self.get_literal(true)?),
            Token::Pipe => Instruction::Or(self.get_literal(true)?),
            t => {
                if matches!(t, Token::LeftAngle) && self.base.tryconsume(Token::LeftAngle) {
                    Instruction::ShiftL(self.get_literal(true)?)
                } else if matches!(t, Token::RightAngle) && self.base.tryconsume(
                    Token::RightAngle,
                ) {
                    Instruction::ShiftR(self.get_literal(true)?)
                } else {
                    let mut message = String::from_str("Unexpected Token ");
                    push_quoted(&mut message, t.to_string().as_str());
                    return Err(DSAsmError::ConverterError(message));
                }
            },
        };
        Ok(r)
    }

    /// Assembles the tokens, from the first one on, into instructions. Each
    /// construct of the intermediate assembly gives one instruction; a run
    /// of `+` or `-` gives one instruction with the run's length, wrapped to
    /// the width of a cell. Any other sequence of tokens fails with an error
    /// of the converter.
    pub fn convert(&mut self) -> (r: Result<Vec<Instruction>, DSAsmError>)
        ensures
            final(self).tokens() == old(self).tokens(),
            match r {
                Ok(program) => assemble(old(self).tokens()) == Ok::<Seq<InstructionView>, Failure>(
                    instruction_views(program@),
                ),
                Err(e) => assemble(old(self).tokens()) == Err::<Seq<InstructionView>, Failure>(e@)
                    && e@.kind == ErrorKind::Converter,
            },
    {
        let mut output: Vec<Instruction> = Vec::new();
        self.base.set_peek(0);
        let ghost tokens = self.tokens();
        while self.base.has_peek()
            invariant
                self.tokens() == tokens,
                tokens == old(self).tokens(),
                self.position() <= tokens.len(),
                assemble(tokens) == then_instructions(
                    instruction_views(output@),
                    assemble_from(tokens, self.position() as int),
                ),
            decreases tokens.len() - self.position(),
        {
            let ghost before = instruction_views(output@);
            let ins = self.decode_one()?;
            output.push(ins);
            assert(instruction_views(output@) =~= before.push(ins@));
            assert forall|rest: Seq<InstructionView>| #[trigger]
                (before + (seq![ins@] + rest)) == before.push(ins@) + rest by {
                assert((before + (seq![ins@] + rest)) =~= before.push(ins@) + rest);
            }
        }
        assert(instruction_views(output@) + Seq::<InstructionView>::empty() =~= instruction_views(
            output@,
        ));
        Ok(output)
    }
}

} // verus!
