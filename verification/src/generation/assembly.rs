//! What the generator emits can be assembled: each operation emits whole
//! instructions, which do not run together with what was emitted before.
use vstd::prelude::*;
use crate::bytecode::{Instruction, InstructionView};
use crate::bytecode::writing::{
    apart_from, assembled, canonical, faithful, lemma_faithful_after, lemma_written_one, op,
    repeated, writable, written,
};
use crate::generation::{GeneratorState, moved_to};
use crate::generation::labels::{
    jump_target, lemma_jumps_joined, lemma_no_jumps, lemma_unlabelled_joined,
};
use crate::interpreter::MemoryUnit;
use crate::tokenizer::{Token, TokenView, plain};

verus! {

/// One instruction, written after faithful tokens that it follows apart,
/// gives faithful tokens, which assemble to the instructions before and
/// then the one.
pub proof fn lemma_one_more(before: Seq<TokenView>, i: InstructionView)
    requires
        faithful(before),
        writable(i),
        apart_from(before, written(i)),
    ensures
        faithful(before + written(i)),
        assembled(before + written(i)) == assembled(before) + seq![i],
{
    lemma_written_one(i);
    assert(canonical(seq![i]));
    lemma_faithful_after(before, seq![i]);
}

/// A state that has emitted one instruction more than another, which that
/// instruction follows apart: what it has emitted can be assembled if what
/// the other had emitted could, to the same instructions and then the one;
/// its labels and jumps are in order if those of the other were, unless
/// the instruction defines a label or jumps; and its pointer is where the
/// code has moved to last if that of the other was, and has followed the
/// instruction.
pub proof fn lemma_emitted(before: GeneratorState, after: GeneratorState, i: InstructionView)
    requires
        before.reads(),
        writable(i),
        apart_from(before.output, written(i)),
        after.output == before.output + written(i),
        after.labels == before.labels,
    ensures
        after.reads(),
        after.program() == before.program() + seq![i],
        i is Plain && before.tidy() ==> after.tidy(),
        before.tracks() && after.pointer == moved_to(i, before.pointer) ==> after.tracks(),
{
    lemma_one_more(before.output, i);
    assert((before.program() + seq![i]).drop_last() =~= before.program());
    if i is Plain && before.tidy() {
        assert forall|k: int| 0 <= k < seq![i].len() implies !(#[trigger] seq![i][k] is Label) by {}
        lemma_unlabelled_joined(before.program(), seq![i], before.labels);
        assert forall|k: int| 0 <= k < seq![i].len() implies (#[trigger] jump_target(seq![i][k]))
            is None by {}
        lemma_no_jumps(seq![i]);
        lemma_jumps_joined(before.program(), seq![i]);
    }
}

/// The instructions of a run of `+`: one instruction with its length, or
/// none when the run is empty.
pub open spec fn plus_code(val: MemoryUnit) -> Seq<InstructionView> {
    if val > 0 {
        seq![op(Instruction::Increment(val))]
    } else {
        Seq::empty()
    }
}

/// The instructions of a run of `-`: one instruction with its length, or
/// none when the run is empty.
pub open spec fn minus_code(val: MemoryUnit) -> Seq<InstructionView> {
    if val > 0 {
        seq![op(Instruction::Decrement(val))]
    } else {
        Seq::empty()
    }
}

/// The tokens that a state has emitted after `n` more tokens `t`.
pub proof fn lemma_pushed_times(s: GeneratorState, t: Token, n: nat)
    ensures
        s.push_times(plain(t), n).output == s.output + repeated(t, n),
        s.push_times(plain(t), n).cells == s.cells,
        s.push_times(plain(t), n).pointer == s.pointer,
        s.push_times(plain(t), n).labels == s.labels,
    decreases n,
{
    if n == 0 {
        assert(s.output + repeated(t, 0) =~= s.output);
    } else {
        lemma_pushed_times(s, t, (n - 1) as nat);
        assert(s.push_times(plain(t), n).output =~= s.output + repeated(t, n));
    }
}

/// A run of `+` after a state that does not end with `+` keeps what has
/// been emitted in order.
pub proof fn lemma_add_reads(s: GeneratorState, val: MemoryUnit)
    requires
        s.reads(),
        !s.ends_with(Token::Plus),
    ensures
        s.add(val).reads(),
        s.add(val).program() == s.program() + plus_code(val),
        s.tidy() ==> s.add(val).tidy(),
        s.tracks() ==> s.add(val).tracks(),
{
    lemma_pushed_times(s, Token::Plus, val as nat);
    if val > 0 {
        lemma_emitted(s, s.add(val), op(Instruction::Increment(val)));
    } else {
        assert(s.output + repeated(Token::Plus, 0) =~= s.output);
        assert(s.program() + Seq::<InstructionView>::empty() =~= s.program());
    }
}

/// A run of `-` after a state that does not end with `-` keeps what has
/// been emitted in order.
pub proof fn lemma_sub_reads(s: GeneratorState, val: MemoryUnit)
    requires
        s.reads(),
        !s.ends_with(Token::Minus),
    ensures
        s.sub(val).reads(),
        s.sub(val).program() == s.program() + minus_code(val),
        s.tidy() ==> s.sub(val).tidy(),
        s.tracks() ==> s.sub(val).tracks(),
{
    lemma_pushed_times(s, Token::Minus, val as nat);
    if val > 0 {
        lemma_emitted(s, s.sub(val), op(Instruction::Decrement(val)));
    } else {
        assert(s.output + repeated(Token::Minus, 0) =~= s.output);
        assert(s.program() + Seq::<InstructionView>::empty() =~= s.program());
    }
}

} // verus!
