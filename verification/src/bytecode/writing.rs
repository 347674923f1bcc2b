//! Writing instructions as intermediate assembly, and the proof that the
//! assembler reads them back.
use vstd::prelude::*;
use crate::bytecode::{
    Decoded, Instruction, InstructionView, assemble, assemble_from, decode, same_run,
    then_instructions,
};
use crate::error::Failure;
use crate::tokenizer::{Token, TokenView, literal, plain, token_at};

verus! {

/// An instruction without a name in it.
pub open spec fn op(i: Instruction) -> InstructionView {
    InstructionView::Plain(i)
}

/// `n` times the token `t`.
pub open spec fn repeated(t: Token, n: nat) -> Seq<TokenView> {
    Seq::new(n, |i: int| TokenView::Plain(t))
}

/// The tokens that an instruction is written with.
pub open spec fn written(i: InstructionView) -> Seq<TokenView> {
    match i {
        InstructionView::Label(name) => seq![plain(Token::LabelDef), TokenView::Identifier(name)],
        InstructionView::Jump(name) => seq![plain(Token::Jmp), TokenView::Identifier(name)],
        InstructionView::JumpZero(name) => seq![plain(Token::Jze), TokenView::Identifier(name)],
        InstructionView::JumpNotZero(name) => seq![
            plain(Token::Jnze),
            TokenView::Identifier(name),
        ],
        InstructionView::Plain(p) => match p {
            Instruction::MoveStack(a) => seq![plain(Token::Caret), literal(a)],
            Instruction::Increment(k) => repeated(Token::Plus, k as nat),
            Instruction::Decrement(k) => repeated(Token::Minus, k as nat),
            Instruction::UserInput => seq![plain(Token::Comma)],
            Instruction::Print => seq![plain(Token::Dot)],
            Instruction::Invert => seq![plain(Token::Exclamation)],
            Instruction::Multiply(a) => seq![plain(Token::Star), literal(a)],
            Instruction::Divide(a) => seq![plain(Token::Slash), literal(a)],
            Instruction::Clear => seq![plain(Token::Tilde)],
            Instruction::Dereference(a) => seq![
                plain(Token::OpenSquare),
                literal(a),
                plain(Token::CloseSquare),
            ],
            Instruction::Goto(a) => seq![plain(Token::Minus), plain(Token::RightAngle), literal(a)],
            Instruction::Compare(a) => seq![plain(Token::Apostrophe), literal(a)],
            Instruction::ShiftL(a) => seq![
                plain(Token::LeftAngle),
                plain(Token::LeftAngle),
                literal(a),
            ],
            Instruction::ShiftR(a) => seq![
                plain(Token::RightAngle),
                plain(Token::RightAngle),
                literal(a),
            ],
            Instruction::Or(a) => seq![plain(Token::Pipe), literal(a)],
            _ => Seq::empty(),
        },
    }
}

/// The tokens that a sequence of instructions is written with.
pub open spec fn written_all(program: Seq<InstructionView>) -> Seq<TokenView>
    decreases program.len(),
{
    if program.len() == 0 {
        Seq::empty()
    } else {
        written(program[0]) + written_all(program.drop_first())
    }
}

/// Whether an instruction can be written: its operand fits in a literal, a
/// run has at least one token, and it is an instruction at all.
pub open spec fn writable(i: InstructionView) -> bool {
    match i {
        InstructionView::Plain(p) => match p {
            Instruction::MoveStack(a) | Instruction::Multiply(a) | Instruction::Divide(a)
            | Instruction::Dereference(a) | Instruction::Goto(a) | Instruction::Compare(a)
            | Instruction::ShiftL(a) | Instruction::ShiftR(a) | Instruction::Or(a) => a
                <= u8::MAX,
            Instruction::Increment(k) | Instruction::Decrement(k) => k >= 1,
            Instruction::UserInput | Instruction::Print | Instruction::Invert
            | Instruction::Clear => true,
            _ => false,
        },
        _ => true,
    }
}

/// Whether `second` can be written right after `first` without the two
/// running together: a run of `+` or `-` is not followed by more of it, a
/// `-` is not followed by the `-` of a `->`, and a single `-` is not
/// followed by `>>`, which would read as `->`.
pub open spec fn separate(first: InstructionView, second: InstructionView) -> bool {
    match first {
        InstructionView::Plain(Instruction::Increment(_)) => !(second matches InstructionView::Plain(
            Instruction::Increment(_),
        )),
        InstructionView::Plain(Instruction::Decrement(k)) => {
            &&& !(second matches InstructionView::Plain(Instruction::Decrement(_)))
            &&& !(second matches InstructionView::Plain(Instruction::Goto(_)))
            &&& k == 1 ==> !(second matches InstructionView::Plain(Instruction::ShiftR(_)))
        },
        _ => true,
    }
}

/// Whether a sequence of instructions can be written and read back: each
/// can be written, and each is separate from the next.
pub open spec fn canonical(program: Seq<InstructionView>) -> bool {
    &&& forall|i: int| 0 <= i < program.len() ==> writable(#[trigger] program[i])
    &&& forall|i: int|
        0 <= i < program.len() - 1 ==> separate(#[trigger] program[i], program[i + 1])
}

/// The token at a position of two joined sequences, counted from the start
/// of the second.
pub proof fn lemma_token_at_shift(a: Seq<TokenView>, b: Seq<TokenView>, k: int)
    requires
        0 <= k,
    ensures
        token_at(a + b, a.len() + k) == token_at(b, k),
{
}

/// A run in the second of two joined sequences.
pub proof fn lemma_same_run_shift(a: Seq<TokenView>, b: Seq<TokenView>, k: int, t: Token)
    requires
        0 <= k,
    ensures
        same_run(a + b, a.len() + k, t) == same_run(b, k, t),
    decreases b.len() - k,
{
    if k < b.len() {
        assert((a + b)[a.len() + k] == b[k]);
        if b[k] == TokenView::Plain(t) {
            lemma_same_run_shift(a, b, k + 1, t);
        }
    }
}

/// An instruction that is read from the second of two joined sequences is
/// read alike from the second alone.
pub proof fn lemma_decode_shift(a: Seq<TokenView>, b: Seq<TokenView>, k: int)
    requires
        0 <= k < b.len(),
    ensures
        decode(a + b, a.len() + k).more == decode(b, k).more,
        decode(b, k).outcome is Ok ==> decode(a + b, a.len() + k).outcome == decode(b, k).outcome,
{
    assert((a + b)[a.len() + k] == b[k]);
    lemma_token_at_shift(a, b, k + 1);
    lemma_token_at_shift(a, b, k + 2);
    lemma_same_run_shift(a, b, k + 1, Token::Plus);
    lemma_same_run_shift(a, b, k + 1, Token::Minus);
}

/// Instructions that are read from the second of two joined sequences are
/// read alike from the second alone.
pub proof fn lemma_assemble_shift(a: Seq<TokenView>, b: Seq<TokenView>, k: int)
    requires
        0 <= k,
        assemble_from(b, k) is Ok,
    ensures
        assemble_from(a + b, a.len() + k) == assemble_from(b, k),
    decreases
        (if k < b.len() {
            b.len() - k
        } else {
            0
        }),
{
    if k < b.len() {
        lemma_decode_shift(a, b, k);
        let d = decode(b, k);
        lemma_assemble_shift(a, b, k + 1 + d.more);
    }
}

/// A run of `n` tokens `t`, followed by anything that does not start with
/// `t`, counts from its position `from` on as what is left of it.
pub proof fn lemma_run_counts(t: Token, n: nat, tail: Seq<TokenView>, from: int)
    requires
        0 <= from <= n,
        tail.len() == 0 || tail[0] != TokenView::Plain(t),
    ensures
        same_run(repeated(t, n) + tail, from, t) == n - from,
    decreases n - from,
{
    let tokens = repeated(t, n) + tail;
    if from < n {
        assert(tokens[from] == TokenView::Plain(t));
        lemma_run_counts(t, n, tail, from + 1);
    } else if tail.len() > 0 {
        assert(tokens[from] == tail[0]);
    }
}

/// The first token that an instruction is written with.
pub open spec fn first_token(i: InstructionView) -> TokenView {
    written(i)[0]
}

/// A writable instruction is written with at least one token, and what
/// follows an instruction that is separate from it starts accordingly.
pub proof fn lemma_first_token(first: InstructionView, second: InstructionView)
    requires
        writable(first),
        writable(second),
        separate(first, second),
    ensures
        written(second).len() > 0,
        first matches InstructionView::Plain(Instruction::Increment(_)) ==> first_token(second)
            != plain(Token::Plus),
        first matches InstructionView::Plain(Instruction::Decrement(_)) ==> first_token(second)
            != plain(Token::Minus),
        first matches InstructionView::Plain(Instruction::Decrement(k)) && k == 1 ==> first_token(
            second,
        ) != plain(Token::RightAngle),
{
}

/// A writable instruction, written before a tail that does not run
/// together with it, is read back as itself.
pub proof fn lemma_decode_written(i: InstructionView, tail: Seq<TokenView>)
    requires
        writable(i),
        i matches InstructionView::Plain(Instruction::Increment(_)) ==> tail.len() == 0 || tail[0]
            != plain(Token::Plus),
        i matches InstructionView::Plain(Instruction::Decrement(_)) ==> tail.len() == 0 || tail[0]
            != plain(Token::Minus),
        i matches InstructionView::Plain(Instruction::Decrement(k)) && k == 1 ==> tail.len() == 0
            || tail[0] != plain(Token::RightAngle),
    ensures
        written(i).len() > 0,
        decode(written(i) + tail, 0) == (Decoded {
            outcome: Ok(i),
            more: (written(i).len() - 1) as nat,
        }),
{
    let tokens = written(i) + tail;
    match i {
        InstructionView::Plain(Instruction::Increment(k)) => {
            lemma_run_counts(Token::Plus, k as nat, tail, 1);
            assert(tokens[0] == plain(Token::Plus));
        },
        InstructionView::Plain(Instruction::Decrement(k)) => {
            lemma_run_counts(Token::Minus, k as nat, tail, 1);
            assert(tokens[0] == plain(Token::Minus));
            if k == 1 {
                if tail.len() > 0 {
                    assert(tokens[1] == tail[0]);
                }
            } else {
                assert(tokens[1] == plain(Token::Minus));
            }
        },
        InstructionView::Label(_) | InstructionView::Jump(_) | InstructionView::JumpZero(_)
        | InstructionView::JumpNotZero(_) => {
            assert(tokens[0] == written(i)[0]);
            assert(tokens[1] == written(i)[1]);
        },
        InstructionView::Plain(Instruction::Dereference(_))
        | InstructionView::Plain(Instruction::Goto(_))
        | InstructionView::Plain(Instruction::ShiftL(_))
        | InstructionView::Plain(Instruction::ShiftR(_)) => {
            assert(tokens[0] == written(i)[0]);
            assert(tokens[1] == written(i)[1]);
            assert(tokens[2] == written(i)[2]);
        },
        InstructionView::Plain(Instruction::MoveStack(_))
        | InstructionView::Plain(Instruction::Multiply(_))
        | InstructionView::Plain(Instruction::Divide(_))
        | InstructionView::Plain(Instruction::Compare(_))
        | InstructionView::Plain(Instruction::Or(_)) => {
            assert(tokens[0] == written(i)[0]);
            assert(tokens[1] == written(i)[1]);
        },
        _ => {
            assert(tokens[0] == written(i)[0]);
        },
    }
}

/// The assembler reads back what has been written: a canonical sequence of
/// instructions, written as intermediate assembly, assembles to itself.
pub proof fn lemma_assembler_roundtrip(program: Seq<InstructionView>)
    requires
        canonical(program),
    ensures
        assemble(written_all(program)) == Ok::<Seq<InstructionView>, Failure>(program),
    decreases program.len(),
{
    if program.len() == 0 {
        assert(program =~= Seq::empty());
    } else {
        let head = program[0];
        let rest = program.drop_first();
        let tail = written_all(rest);
        assert(canonical(rest)) by {
            assert forall|i: int| 0 <= i < rest.len() implies writable(#[trigger] rest[i]) by {
                assert(rest[i] == program[i + 1]);
            }
            assert forall|i: int| 0 <= i < rest.len() - 1 implies separate(
                #[trigger] rest[i],
                rest[i + 1],
            ) by {
                assert(rest[i] == program[i + 1]);
                assert(rest[i + 1] == program[i + 2]);
            }
        }
        lemma_assembler_roundtrip(rest);
        if rest.len() > 0 {
            assert(rest[0] == program[1]);
            lemma_first_token(head, rest[0]);
            assert(tail == written(rest[0]) + written_all(rest.drop_first()));
            assert(tail[0] == first_token(rest[0]));
        }
        lemma_decode_written(head, tail);
        let tokens = written_all(program);
        let first = written(head).len();
        assert(tokens == written(head) + tail);
        assert(assemble_from(tail, 0) == Ok::<Seq<InstructionView>, Failure>(rest));
        lemma_assemble_shift(written(head), tail, 0);
        assert(assemble_from(tokens, first as int) == Ok::<Seq<InstructionView>, Failure>(rest));
        assert(decode(tokens, 0).more == first - 1);
        assert(assemble_from(tokens, 0) == then_instructions(
            seq![head],
            assemble_from(tokens, first as int),
        ));
        assert(seq![head] + rest =~= program);
    }
}

/// Whether a token can follow another without running together with what
/// the other ends: a `+` does not follow a `+`, and neither a `-` nor a `>`
/// follows a `-`.
pub open spec fn apart(last: TokenView, first: TokenView) -> bool {
    &&& last == plain(Token::Plus) ==> first != plain(Token::Plus)
    &&& last == plain(Token::Minus) ==> first != plain(Token::Minus) && first != plain(
        Token::RightAngle,
    )
}

/// Whether the tokens `b` can follow the tokens `a` without running
/// together with their end.
pub open spec fn apart_from(a: Seq<TokenView>, b: Seq<TokenView>) -> bool {
    a.len() > 0 && b.len() > 0 ==> apart(a.last(), b[0])
}

/// A run ends inside its sequence.
pub proof fn lemma_same_run_bounded(tokens: Seq<TokenView>, from: int, t: Token)
    requires
        0 <= from,
    ensures
        from + same_run(tokens, from, t) <= (if from <= tokens.len() {
            tokens.len() as int
        } else {
            from
        }),
    decreases
        (if from < tokens.len() {
            tokens.len() - from
        } else {
            0
        }),
{
    if from < tokens.len() && tokens[from] == TokenView::Plain(t) {
        lemma_same_run_bounded(tokens, from + 1, t);
    }
}

/// A run in the first of two joined sequences, continued from inside it, is
/// the same as in the first alone, when the second follows apart.
pub proof fn lemma_same_run_kept(a: Seq<TokenView>, b: Seq<TokenView>, from: int, t: Token)
    requires
        1 <= from <= a.len(),
        a[from - 1] == TokenView::Plain(t),
        t == Token::Plus || t == Token::Minus,
        apart_from(a, b),
    ensures
        same_run(a + b, from, t) == same_run(a, from, t),
    decreases a.len() - from,
{
    if from < a.len() {
        assert((a + b)[from] == a[from]);
        if a[from] == TokenView::Plain(t) {
            lemma_same_run_kept(a, b, from + 1, t);
        }
    } else if b.len() > 0 {
        assert((a + b)[from] == b[0]);
        assert(a.last() == a[from - 1]);
    }
}

/// An instruction that is read inside a sequence ends inside it.
pub proof fn lemma_decode_bounded(tokens: Seq<TokenView>, pos: int)
    requires
        0 <= pos < tokens.len(),
        decode(tokens, pos).outcome is Ok,
    ensures
        pos + 1 + decode(tokens, pos).more <= tokens.len(),
{
    lemma_same_run_bounded(tokens, pos + 1, Token::Plus);
    lemma_same_run_bounded(tokens, pos + 1, Token::Minus);
}

/// An instruction that is read in the first of two joined sequences is read
/// alike in the first alone, when the second follows apart.
pub proof fn lemma_decode_kept(a: Seq<TokenView>, b: Seq<TokenView>, pos: int)
    requires
        0 <= pos < a.len(),
        decode(a, pos).outcome is Ok,
        apart_from(a, b),
    ensures
        decode(a + b, pos) == decode(a, pos),
{
    let joined = a + b;
    assert(joined[pos] == a[pos]);
    lemma_decode_bounded(a, pos);
    if a[pos] == plain(Token::Plus) {
        lemma_same_run_kept(a, b, pos + 1, Token::Plus);
    }
    if a[pos] == plain(Token::Minus) {
        lemma_same_run_kept(a, b, pos + 1, Token::Minus);
    }
    if pos + 1 < a.len() {
        assert(joined[pos + 1] == a[pos + 1]);
    } else if b.len() > 0 {
        assert(joined[pos + 1] == b[0]);
        assert(a.last() == a[pos]);
    }
    if pos + 2 < a.len() {
        assert(joined[pos + 2] == a[pos + 2]);
    }
}

/// The instructions of two joined sequences of tokens, from a position in
/// the first on, are those of the first from there on and then those of the
/// second, when both can be assembled and the second follows apart.
pub proof fn lemma_assemble_joined_from(a: Seq<TokenView>, b: Seq<TokenView>, pos: int)
    requires
        0 <= pos <= a.len(),
        assemble_from(a, pos) is Ok,
        assemble(b) is Ok,
        apart_from(a, b),
    ensures
        assemble_from(a + b, pos) == Ok::<Seq<InstructionView>, Failure>(
            assemble_from(a, pos)->Ok_0 + assemble(b)->Ok_0,
        ),
    decreases a.len() - pos,
{
    if pos == a.len() {
        lemma_assemble_shift(a, b, 0);
        assert(assemble_from(a, pos)->Ok_0 + assemble(b)->Ok_0 =~= assemble(b)->Ok_0);
    } else {
        let d = decode(a, pos);
        lemma_decode_bounded(a, pos);
        lemma_decode_kept(a, b, pos);
        lemma_assemble_joined_from(a, b, pos + 1 + d.more);
        let first = d.outcome->Ok_0;
        let rest = assemble_from(a, pos + 1 + d.more)->Ok_0;
        assert(seq![first] + (rest + assemble(b)->Ok_0) =~= seq![first] + rest + assemble(b)->Ok_0);
    }
}

/// Two sequences of tokens that can be assembled, the second of which
/// follows the first apart, can be assembled one after the other, and give
/// the instructions of the first and then those of the second.
pub proof fn lemma_assemble_joined(a: Seq<TokenView>, b: Seq<TokenView>)
    requires
        assemble(a) is Ok,
        assemble(b) is Ok,
        apart_from(a, b),
    ensures
        assemble(a + b) == Ok::<Seq<InstructionView>, Failure>(
            assemble(a)->Ok_0 + assemble(b)->Ok_0,
        ),
{
    lemma_assemble_joined_from(a, b, 0);
}

/// A canonical sequence of instructions can be written after any tokens
/// that can be assembled and that its own tokens follow apart: the whole
/// can be assembled.
pub proof fn lemma_written_after(before: Seq<TokenView>, code: Seq<InstructionView>)
    requires
        assemble(before) is Ok,
        canonical(code),
        apart_from(before, written_all(code)),
    ensures
        assemble(before + written_all(code)) == Ok::<Seq<InstructionView>, Failure>(
            assemble(before)->Ok_0 + code,
        ),
{
    lemma_assembler_roundtrip(code);
    lemma_assemble_joined(before, written_all(code));
}

/// A sequence that starts with one instruction is written with the tokens
/// of that instruction and then those of the rest.
pub proof fn lemma_written_first(i: InstructionView, rest: Seq<InstructionView>)
    ensures
        written_all(seq![i] + rest) == written(i) + written_all(rest),
{
    let whole = seq![i] + rest;
    assert(whole[0] == i);
    assert(whole.drop_first() =~= rest);
}

/// Two sequences, one after the other, are written with the tokens of the
/// first and then those of the second.
pub proof fn lemma_written_joined(a: Seq<InstructionView>, b: Seq<InstructionView>)
    ensures
        written_all(a + b) == written_all(a) + written_all(b),
    decreases a.len(),
{
    if a.len() == 0 {
        assert(a + b =~= b);
        assert(written_all(a) + written_all(b) =~= written_all(b));
    } else {
        let rest = a.drop_first();
        lemma_written_joined(rest, b);
        assert((a + b).drop_first() =~= rest + b);
        assert((a + b)[0] == a[0]);
        assert(written_all(a + b) =~= written_all(a) + written_all(b));
    }
}

/// A sequence with one more instruction is written with what it was
/// written with and then the tokens of that instruction.
pub proof fn lemma_written_pushed(program: Seq<InstructionView>, i: InstructionView)
    ensures
        written_all(program.push(i)) == written_all(program) + written(i),
{
    lemma_written_first(i, Seq::empty());
    lemma_written_joined(program, seq![i] + Seq::<InstructionView>::empty());
    assert(program.push(i) =~= program + (seq![i] + Seq::<InstructionView>::empty()));
    assert(written(i) + written_all(Seq::<InstructionView>::empty()) =~= written(i));
}

/// The sequence of one instruction is written with its tokens.
pub proof fn lemma_written_one(i: InstructionView)
    ensures
        written_all(seq![i]) == written(i),
{
    lemma_written_pushed(Seq::empty(), i);
    assert(Seq::<InstructionView>::empty().push(i) =~= seq![i]);
    assert(written_all(Seq::<InstructionView>::empty()) + written(i) =~= written(i));
}

/// Two canonical sequences, the first of which ends separate from the start
/// of the second, make a canonical sequence.
pub proof fn lemma_canonical_joined(a: Seq<InstructionView>, b: Seq<InstructionView>)
    requires
        canonical(a),
        canonical(b),
        a.len() > 0 && b.len() > 0 ==> separate(a.last(), b[0]),
    ensures
        canonical(a + b),
{
    let c = a + b;
    assert forall|i: int| 0 <= i < c.len() implies writable(#[trigger] c[i]) by {
        if i < a.len() {
            assert(c[i] == a[i]);
        } else {
            assert(c[i] == b[i - a.len()]);
        }
    }
    assert forall|i: int| 0 <= i < c.len() - 1 implies separate(#[trigger] c[i], c[i + 1]) by {
        if i + 1 < a.len() {
            assert(c[i] == a[i] && c[i + 1] == a[i + 1]);
        } else if i < a.len() {
            assert(c[i] == a.last() && c[i + 1] == b[0]);
        } else {
            assert(c[i] == b[i - a.len()] && c[i + 1] == b[i - a.len() + 1]);
        }
    }
}

/// The token that a canonical sequence of instructions, which is not
/// empty, is written with last is the last token of its last instruction,
/// and the first is the first token of its first instruction.
pub proof fn lemma_written_ends(program: Seq<InstructionView>)
    requires
        canonical(program),
        program.len() > 0,
    ensures
        written(program.last()).len() > 0,
        written(program[0]).len() > 0,
        written_all(program).len() > 0,
        written_all(program).last() == written(program.last()).last(),
        written_all(program)[0] == written(program[0])[0],
    decreases program.len(),
{
    let rest = program.drop_first();
    assert(writable(program[0]));
    if rest.len() > 0 {
        assert(canonical(rest)) by {
            assert forall|i: int| 0 <= i < rest.len() implies writable(#[trigger] rest[i]) by {
                assert(rest[i] == program[i + 1]);
            }
            assert forall|i: int| 0 <= i < rest.len() - 1 implies separate(
                #[trigger] rest[i],
                rest[i + 1],
            ) by {
                assert(rest[i] == program[i + 1]);
                assert(rest[i + 1] == program[i + 2]);
            }
        }
        lemma_written_ends(rest);
        assert(rest.last() == program.last());
    } else {
        assert(program.last() == program[0]);
        assert(written_all(rest) =~= Seq::<TokenView>::empty());
        assert(written_all(program) =~= written(program[0]));
    }
}

/// Whether a sequence of tokens is what a canonical sequence of
/// instructions is written with: the tokens assemble to instructions that
/// are canonical and that are written with these very tokens.
#[verifier::opaque]
pub open spec fn faithful(tokens: Seq<TokenView>) -> bool {
    &&& assemble(tokens) matches Ok(program)
    &&& canonical(program)
    &&& written_all(program) == tokens
}

/// The instructions that a sequence of tokens assembles to.
#[verifier::opaque]
pub open spec fn assembled(tokens: Seq<TokenView>) -> Seq<InstructionView> {
    assemble(tokens)->Ok_0
}

/// Faithful tokens assemble, to canonical instructions that are written
/// with these very tokens.
pub proof fn lemma_faithful(tokens: Seq<TokenView>)
    requires
        faithful(tokens),
    ensures
        assemble(tokens) == Ok::<Seq<InstructionView>, Failure>(assembled(tokens)),
        canonical(assembled(tokens)),
        written_all(assembled(tokens)) == tokens,
{
    reveal(faithful);
    reveal(assembled);
}

/// A canonical sequence of instructions, written after faithful tokens
/// that its own tokens follow apart, gives faithful tokens: they assemble
/// to the instructions before and then those of the sequence.
pub proof fn lemma_faithful_after(before: Seq<TokenView>, code: Seq<InstructionView>)
    requires
        faithful(before),
        canonical(code),
        apart_from(before, written_all(code)),
    ensures
        faithful(before + written_all(code)),
        assembled(before + written_all(code)) == assembled(before) + code,
{
    reveal(faithful);
    reveal(assembled);
    let program = assemble(before)->Ok_0;
    lemma_written_after(before, code);
    lemma_written_joined(program, code);
    if program.len() > 0 && code.len() > 0 {
        lemma_written_ends(program);
        lemma_written_ends(code);
    }
    lemma_canonical_joined(program, code);
}

} // verus!
