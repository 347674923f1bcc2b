//! What the code for moving, adding and copying cells does when the
//! interpreter runs it.
use vstd::prelude::*;
use crate::bytecode::{Instruction, InstructionView, assemble};
use crate::bytecode::writing::{
    canonical, lemma_assembler_roundtrip, lemma_canonical_joined, lemma_written_first,
    lemma_written_joined, lemma_written_one, lemma_written_pushed, op, separate, writable, written,
    written_all,
};
use crate::error::Failure;
use crate::generation::{Cell, GeneratorState, first_unused, label_name};
use crate::generation::emit::addressable;
use crate::interpreter::{
    Machine, MemoryUnit, STACK_SIZE, Status, execute, resolve, run, status, wrap_add,
};
use crate::tokenizer::TokenView;

verus! {

/// The instructions from index `at` on are those of `code`.
pub open spec fn placed(program: Seq<InstructionView>, at: int, code: Seq<InstructionView>) -> bool {
    &&& 0 <= at
    &&& at + code.len() <= program.len()
    &&& forall|j: int| 0 <= j < code.len() ==> #[trigger] program[at + j] == code[j]
}

/// The machine `m` runs `n` instructions and is then the machine `end`.
pub open spec fn arrives(program: Seq<InstructionView>, m: Machine, n: nat, end: Machine) -> bool {
    run(program, m, n) == (Ok::<Status, Failure>(status(program, end)), end)
}

/// A run of `a` and then `b` instructions is a run of `a + b` instructions.
pub proof fn lemma_run_joined(
    program: Seq<InstructionView>,
    m: Machine,
    a: nat,
    middle: Machine,
    b: nat,
    end: Machine,
)
    requires
        arrives(program, m, a, middle),
        arrives(program, middle, b, end),
    ensures
        arrives(program, m, a + b, end),
    decreases a,
{
    if status(program, m) != Status::Running {
        assert(middle == m);
    } else if a == 0 {
        assert(middle == m);
    } else {
        match execute(program, m) {
            Err(e) => {},
            Ok(next) => {
                lemma_run_joined(program, next, (a - 1) as nat, middle, b, end);
                assert(run(program, m, a + b) == run(program, next, (a + b - 1) as nat));
            },
        }
    }
}

/// One instruction that runs.
pub proof fn lemma_run_one(program: Seq<InstructionView>, m: Machine, end: Machine)
    requires
        status(program, m) == Status::Running,
        execute(program, m) == Ok::<Machine, Failure>(end),
    ensures
        arrives(program, m, 1, end),
{
    assert(run(program, end, 0) == (Ok::<Status, Failure>(status(program, end)), end));
}

/// The instructions that empty the cell at `src` into the cell at `dst`: a
/// loop that is entered unless `src` holds zero, and that takes one from
/// `src` and gives one to `dst` until `src` holds zero.
pub open spec fn transfer_code(
    dst: MemoryUnit,
    src: MemoryUnit,
    turn: Seq<char>,
    skip: Seq<char>,
) -> Seq<InstructionView> {
    seq![
        op(Instruction::MoveStack(src)),
        InstructionView::JumpZero(skip),
        InstructionView::Label(turn),
        op(Instruction::MoveStack(dst)),
        op(Instruction::Increment(1)),
        op(Instruction::MoveStack(src)),
        op(Instruction::Decrement(1)),
        InstructionView::JumpNotZero(turn),
        InstructionView::Label(skip),
    ]
}

/// The code of a transfer is placed at `at`, and its two labels name places
/// in it.
pub open spec fn transfer_placed(
    program: Seq<InstructionView>,
    at: int,
    dst: MemoryUnit,
    src: MemoryUnit,
    turn: Seq<char>,
    skip: Seq<char>,
) -> bool {
    &&& placed(program, at, transfer_code(dst, src, turn, skip))
    &&& resolve(program, turn) == Some(at + 3)
    &&& resolve(program, skip) == Some(at + 9)
    &&& dst < STACK_SIZE
    &&& src < STACK_SIZE
    &&& dst != src
}

/// The machine after the cell at `src` has been added to the cell at `dst`:
/// `dst` holds the wrapped sum, `src` holds zero, the pointer is at `src`.
pub open spec fn added(m: Machine, dst: MemoryUnit, src: MemoryUnit, cursor: int) -> Machine {
    Machine {
        memory: m.memory.update(
            dst as int,
            wrap_add(m.memory[dst as int], m.memory[src as int]),
        ).update(src as int, 0),
        pointer: src as int,
        cursor,
        ..m
    }
}

/// One turn of the loop of a transfer: from the instruction after the
/// loop's label, the cell at `dst` gains one, the cell at `src` loses one,
/// and the machine is back at the same place unless `src` has become zero.
proof fn lemma_transfer_turn(
    program: Seq<InstructionView>,
    at: int,
    dst: MemoryUnit,
    src: MemoryUnit,
    turn: Seq<char>,
    skip: Seq<char>,
    m: Machine,
) -> (end: Machine)
    requires
        transfer_placed(program, at, dst, src, turn, skip),
        m.wf(),
        m.cursor == at + 3,
        m.memory[src as int] >= 1,
    ensures
        arrives(program, m, 5, end),
        end == (Machine {
            memory: m.memory.update(dst as int, wrap_add(m.memory[dst as int], 1)).update(
                src as int,
                (m.memory[src as int] - 1) as MemoryUnit,
            ),
            pointer: src as int,
            cursor: if m.memory[src as int] == 1 {
                at + 8
            } else {
                at + 3
            },
            ..m
        }),
{
    let code = transfer_code(dst, src, turn, skip);
    assert(program[at + 3] == code[3]);
    assert(program[at + 4] == code[4]);
    assert(program[at + 5] == code[5]);
    assert(program[at + 6] == code[6]);
    assert(program[at + 7] == code[7]);
    let m1 = execute(program, m)->Ok_0;
    lemma_run_one(program, m, m1);
    let m2 = execute(program, m1)->Ok_0;
    lemma_run_one(program, m1, m2);
    let m3 = execute(program, m2)->Ok_0;
    lemma_run_one(program, m2, m3);
    let m4 = execute(program, m3)->Ok_0;
    lemma_run_one(program, m3, m4);
    let m5 = execute(program, m4)->Ok_0;
    lemma_run_one(program, m4, m5);
    lemma_run_joined(program, m, 1, m1, 1, m2);
    lemma_run_joined(program, m, 2, m2, 1, m3);
    lemma_run_joined(program, m, 3, m3, 1, m4);
    lemma_run_joined(program, m, 4, m4, 1, m5);
    assert(m5.memory =~= m.memory.update(dst as int, wrap_add(m.memory[dst as int], 1)).update(
        src as int,
        (m.memory[src as int] - 1) as MemoryUnit,
    ));
    m5
}

/// The loop of a transfer: from the instruction after the loop's label,
/// with a cell at `src` that is not zero, the machine arrives after the loop
/// with the sum in `dst` and zero in `src`.
proof fn lemma_transfer_loop(
    program: Seq<InstructionView>,
    at: int,
    dst: MemoryUnit,
    src: MemoryUnit,
    turn: Seq<char>,
    skip: Seq<char>,
    m: Machine,
) -> (n: nat)
    requires
        transfer_placed(program, at, dst, src, turn, skip),
        m.wf(),
        m.cursor == at + 3,
        m.memory[src as int] >= 1,
    ensures
        arrives(program, m, n, added(m, dst, src, at + 8)),
    decreases m.memory[src as int],
{
    let turned = lemma_transfer_turn(program, at, dst, src, turn, skip, m);
    if m.memory[src as int] == 1 {
        assert(turned.memory =~= added(m, dst, src, at + 8).memory);
        5
    } else {
        let rest = lemma_transfer_loop(program, at, dst, src, turn, skip, turned);
        assert(added(turned, dst, src, at + 8).memory =~= added(m, dst, src, at + 8).memory);
        lemma_run_joined(program, m, 5, turned, rest, added(m, dst, src, at + 8));
        5 + rest
    }
}

/// A transfer: from its first instruction the machine arrives behind it,
/// with the wrapped sum of the two cells in `dst` and zero in `src`.
pub proof fn lemma_transfer_effect(
    program: Seq<InstructionView>,
    at: int,
    dst: MemoryUnit,
    src: MemoryUnit,
    turn: Seq<char>,
    skip: Seq<char>,
    m: Machine,
) -> (n: nat)
    requires
        transfer_placed(program, at, dst, src, turn, skip),
        m.wf(),
        m.cursor == at,
    ensures
        arrives(program, m, n, added(m, dst, src, at + 9)),
{
    let code = transfer_code(dst, src, turn, skip);
    let end = added(m, dst, src, at + 9);
    assert(program[at + 0] == code[0]);
    assert(program[at + 1] == code[1]);
    assert(program[at + 2] == code[2]);
    assert(program[at + 8] == code[8]);
    let m1 = execute(program, m)->Ok_0;
    lemma_run_one(program, m, m1);
    let m2 = execute(program, m1)->Ok_0;
    lemma_run_one(program, m1, m2);
    lemma_run_joined(program, m, 1, m1, 1, m2);
    if m.memory[src as int] == 0 {
        assert(m2.memory =~= end.memory);
        2
    } else {
        let m3 = execute(program, m2)->Ok_0;
        lemma_run_one(program, m2, m3);
        lemma_run_joined(program, m, 2, m2, 1, m3);
        let looped = lemma_transfer_loop(program, at, dst, src, turn, skip, m3);
        let m4 = added(m3, dst, src, at + 8);
        lemma_run_joined(program, m, 3, m3, looped, m4);
        let m5 = execute(program, m4)->Ok_0;
        lemma_run_one(program, m4, m5);
        lemma_run_joined(program, m, 3 + looped, m4, 1, m5);
        assert(m5.memory =~= end.memory);
        3 + looped + 1
    }
}

/// The instructions that `mem_add` emits for `dst` and `src` when `id` is
/// the identity of its labels.
pub open spec fn add_code(dst: MemoryUnit, src: MemoryUnit, id: nat) -> Seq<InstructionView> {
    transfer_code(dst, src, label_name(id, "mem_add"@), label_name(id, "skip_mem_add"@))
}

/// The instructions that `mem_sub` emits for `dst` and `src` when `id` is
/// the identity of its labels: a loop that is entered unless `src` holds
/// zero, and that takes one from both cells until one of them holds zero.
pub open spec fn sub_code(dst: MemoryUnit, src: MemoryUnit, id: nat) -> Seq<InstructionView> {
    let turn = label_name(id, "mem_sub"@);
    let skip = label_name(id, "skip_mem_sub"@);
    seq![
        op(Instruction::MoveStack(src)),
        InstructionView::JumpZero(skip),
        InstructionView::Label(turn),
        op(Instruction::MoveStack(dst)),
        InstructionView::JumpZero(skip),
        op(Instruction::Decrement(1)),
        op(Instruction::MoveStack(src)),
        op(Instruction::Decrement(1)),
        op(Instruction::MoveStack(src)),
        InstructionView::JumpNotZero(turn),
        InstructionView::Label(skip),
    ]
}

/// The instructions that `mov` emits for `dst` and `src` when `id` is the
/// identity of its labels: `dst` is cleared, then `src` is emptied into it.
pub open spec fn move_code(dst: MemoryUnit, src: MemoryUnit, id: nat) -> Seq<InstructionView> {
    seq![op(Instruction::MoveStack(dst)), op(Instruction::Clear)] + transfer_code(
        dst,
        src,
        label_name(id, "move"@),
        label_name(id, "skip_move"@),
    )
}

/// The machine after the cell at `src` has been moved to the cell at `dst`:
/// `dst` holds what `src` held, `src` holds zero, the pointer is at `src`.
pub open spec fn moved(m: Machine, dst: MemoryUnit, src: MemoryUnit, cursor: int) -> Machine {
    Machine {
        memory: m.memory.update(dst as int, m.memory[src as int]).update(src as int, 0),
        pointer: src as int,
        cursor,
        ..m
    }
}

/// Adding a cell to another: when the code that `mem_add` emits for `dst`
/// and `src`, two different cells, is placed at `at` in a program whose
/// labels of the identity `id` name their places in it, and the machine is
/// at its first instruction, then the machine arrives behind the code with
/// the wrapped sum of what the two cells held in `dst`, and with zero in
/// `src`.
pub proof fn lemma_mem_add_effect(
    program: Seq<InstructionView>,
    at: int,
    dst: MemoryUnit,
    src: MemoryUnit,
    id: nat,
    m: Machine,
) -> (n: nat)
    requires
        transfer_placed(
            program,
            at,
            dst,
            src,
            label_name(id, "mem_add"@),
            label_name(id, "skip_mem_add"@),
        ),
        m.wf(),
        m.cursor == at,
    ensures
        arrives(program, m, n, added(m, dst, src, at + 9)),
        added(m, dst, src, at + 9).memory[dst as int] == wrap_add(
            m.memory[dst as int],
            m.memory[src as int],
        ),
        added(m, dst, src, at + 9).memory[src as int] == 0,
{
    lemma_transfer_effect(
        program,
        at,
        dst,
        src,
        label_name(id, "mem_add"@),
        label_name(id, "skip_mem_add"@),
        m,
    )
}

/// Moving a cell to another: when the code that `mov` emits for `dst` and
/// `src`, two different cells, is placed at `at` in a program whose labels
/// of the identity `id` name their places in it, and the machine is at its
/// first instruction, then the machine arrives behind the code with what
/// `src` held in `dst`, and with zero in `src`. That is the wrapped sum of
/// what the two cells held exactly when `dst` held zero: the code clears
/// `dst` before it adds.
pub proof fn lemma_move_effect(
    program: Seq<InstructionView>,
    at: int,
    dst: MemoryUnit,
    src: MemoryUnit,
    id: nat,
    m: Machine,
) -> (n: nat)
    requires
        placed(program, at, move_code(dst, src, id)),
        transfer_placed(
            program,
            at + 2,
            dst,
            src,
            label_name(id, "move"@),
            label_name(id, "skip_move"@),
        ),
        m.wf(),
        m.cursor == at,
    ensures
        arrives(program, m, n, moved(m, dst, src, at + 11)),
        moved(m, dst, src, at + 11).memory[dst as int] == m.memory[src as int],
        moved(m, dst, src, at + 11).memory[src as int] == 0,
        m.memory[dst as int] == 0 ==> moved(m, dst, src, at + 11).memory[dst as int] == wrap_add(
            m.memory[dst as int],
            m.memory[src as int],
        ),
{
    let code = move_code(dst, src, id);
    let end = moved(m, dst, src, at + 11);
    assert(program[at + 0] == code[0]);
    assert(program[at + 1] == code[1]);
    let m1 = execute(program, m)->Ok_0;
    lemma_run_one(program, m, m1);
    let m2 = execute(program, m1)->Ok_0;
    lemma_run_one(program, m1, m2);
    lemma_run_joined(program, m, 1, m1, 1, m2);
    let rest = lemma_transfer_effect(
        program,
        at + 2,
        dst,
        src,
        label_name(id, "move"@),
        label_name(id, "skip_move"@),
        m2,
    );
    assert(added(m2, dst, src, at + 11).memory =~= end.memory);
    lemma_run_joined(program, m, 2, m2, rest, end);
    2 + rest
}

/// The code for subtracting is placed at `at`, its two labels name places
/// in it, and the two cells are different.
pub open spec fn sub_placed(
    program: Seq<InstructionView>,
    at: int,
    dst: MemoryUnit,
    src: MemoryUnit,
    id: nat,
) -> bool {
    &&& placed(program, at, sub_code(dst, src, id))
    &&& resolve(program, label_name(id, "mem_sub"@)) == Some(at + 3)
    &&& resolve(program, label_name(id, "skip_mem_sub"@)) == Some(at + 11)
    &&& dst < STACK_SIZE
    &&& src < STACK_SIZE
    &&& dst != src
}

/// The machine after the cell at `src` has been subtracted from the cell at
/// `dst` as far as it goes: both cells have lost the lesser of what the two
/// held, so that one of them holds zero. The pointer is at `dst` when `dst`
/// ran out first, else at `src`.
pub open spec fn subtracted(m: Machine, dst: MemoryUnit, src: MemoryUnit, cursor: int) -> Machine {
    let d = m.memory[dst as int];
    let c = m.memory[src as int];
    let least = if d <= c {
        d
    } else {
        c
    };
    Machine {
        memory: m.memory.update(dst as int, (d - least) as MemoryUnit).update(
            src as int,
            (c - least) as MemoryUnit,
        ),
        pointer: if c > d {
            dst as int
        } else {
            src as int
        },
        cursor,
        ..m
    }
}

/// One turn of the loop of the code for subtracting, with neither cell at
/// zero: both cells lose one, and the machine is back at the same place
/// unless `src` has become zero.
proof fn lemma_sub_turn(
    program: Seq<InstructionView>,
    at: int,
    dst: MemoryUnit,
    src: MemoryUnit,
    id: nat,
    m: Machine,
) -> (end: Machine)
    requires
        sub_placed(program, at, dst, src, id),
        m.wf(),
        m.cursor == at + 3,
        m.memory[src as int] >= 1,
        m.memory[dst as int] >= 1,
    ensures
        arrives(program, m, 7, end),
        end == (Machine {
            memory: m.memory.update(dst as int, (m.memory[dst as int] - 1) as MemoryUnit).update(
                src as int,
                (m.memory[src as int] - 1) as MemoryUnit,
            ),
            pointer: src as int,
            cursor: if m.memory[src as int] == 1 {
                at + 10
            } else {
                at + 3
            },
            ..m
        }),
{
    let code = sub_code(dst, src, id);
    assert(program[at + 3] == code[3]);
    assert(program[at + 4] == code[4]);
    assert(program[at + 5] == code[5]);
    assert(program[at + 6] == code[6]);
    assert(program[at + 7] == code[7]);
    assert(program[at + 8] == code[8]);
    assert(program[at + 9] == code[9]);
    let m1 = execute(program, m)->Ok_0;
    lemma_run_one(program, m, m1);
    let m2 = execute(program, m1)->Ok_0;
    lemma_run_one(program, m1, m2);
    let m3 = execute(program, m2)->Ok_0;
    lemma_run_one(program, m2, m3);
    let m4 = execute(program, m3)->Ok_0;
    lemma_run_one(program, m3, m4);
    let m5 = execute(program, m4)->Ok_0;
    lemma_run_one(program, m4, m5);
    let m6 = execute(program, m5)->Ok_0;
    lemma_run_one(program, m5, m6);
    let m7 = execute(program, m6)->Ok_0;
    lemma_run_one(program, m6, m7);
    lemma_run_joined(program, m, 1, m1, 1, m2);
    lemma_run_joined(program, m, 2, m2, 1, m3);
    lemma_run_joined(program, m, 3, m3, 1, m4);
    lemma_run_joined(program, m, 4, m4, 1, m5);
    lemma_run_joined(program, m, 5, m5, 1, m6);
    lemma_run_joined(program, m, 6, m6, 1, m7);
    assert(m7.memory =~= m.memory.update(
        dst as int,
        (m.memory[dst as int] - 1) as MemoryUnit,
    ).update(src as int, (m.memory[src as int] - 1) as MemoryUnit));
    m7
}

/// The loop of the code for subtracting: from the instruction after the
/// loop's label, with a cell at `src` that is not zero, the machine arrives
/// behind the code with both cells reduced by the lesser of the two.
proof fn lemma_sub_loop(
    program: Seq<InstructionView>,
    at: int,
    dst: MemoryUnit,
    src: MemoryUnit,
    id: nat,
    m: Machine,
) -> (n: nat)
    requires
        sub_placed(program, at, dst, src, id),
        m.wf(),
        m.cursor == at + 3,
        m.memory[src as int] >= 1,
    ensures
        arrives(program, m, n, subtracted(m, dst, src, at + 11)),
    decreases m.memory[src as int],
{
    let code = sub_code(dst, src, id);
    let end = subtracted(m, dst, src, at + 11);
    if m.memory[dst as int] == 0 {
        assert(program[at + 3] == code[3]);
        assert(program[at + 4] == code[4]);
        let m1 = execute(program, m)->Ok_0;
        lemma_run_one(program, m, m1);
        let m2 = execute(program, m1)->Ok_0;
        lemma_run_one(program, m1, m2);
        lemma_run_joined(program, m, 1, m1, 1, m2);
        assert(m2.memory =~= end.memory);
        2
    } else {
        let turned = lemma_sub_turn(program, at, dst, src, id, m);
        if m.memory[src as int] == 1 {
            assert(program[at + 10] == code[10]);
            let last = execute(program, turned)->Ok_0;
            lemma_run_one(program, turned, last);
            lemma_run_joined(program, m, 7, turned, 1, last);
            assert(last.memory =~= end.memory);
            8
        } else {
            let rest = lemma_sub_loop(program, at, dst, src, id, turned);
            assert(subtracted(turned, dst, src, at + 11).memory =~= end.memory);
            lemma_run_joined(program, m, 7, turned, rest, end);
            7 + rest
        }
    }
}

/// Subtracting a cell from another: when the code that `mem_sub` emits for
/// `dst` and `src`, two different cells, is placed at `at` in a program
/// whose labels of the identity `id` name their places in it, and the
/// machine is at its first instruction, then the machine arrives behind the
/// code; both cells have then lost the lesser of what the two held: the
/// difference stops at zero, and `src` holds zero unless `dst` ran out
/// first.
pub proof fn lemma_mem_sub_effect(
    program: Seq<InstructionView>,
    at: int,
    dst: MemoryUnit,
    src: MemoryUnit,
    id: nat,
    m: Machine,
) -> (n: nat)
    requires
        sub_placed(program, at, dst, src, id),
        m.wf(),
        m.cursor == at,
    ensures
        arrives(program, m, n, subtracted(m, dst, src, at + 11)),
        m.memory[dst as int] >= m.memory[src as int] ==> subtracted(
            m,
            dst,
            src,
            at + 11,
        ).memory[dst as int] == m.memory[dst as int] - m.memory[src as int] && subtracted(
            m,
            dst,
            src,
            at + 11,
        ).memory[src as int] == 0,
        m.memory[dst as int] < m.memory[src as int] ==> subtracted(
            m,
            dst,
            src,
            at + 11,
        ).memory[dst as int] == 0,
{
    let code = sub_code(dst, src, id);
    let end = subtracted(m, dst, src, at + 11);
    assert(program[at + 0] == code[0]);
    assert(program[at + 1] == code[1]);
    assert(program[at + 2] == code[2]);
    let m1 = execute(program, m)->Ok_0;
    lemma_run_one(program, m, m1);
    let m2 = execute(program, m1)->Ok_0;
    lemma_run_one(program, m1, m2);
    lemma_run_joined(program, m, 1, m1, 1, m2);
    if m.memory[src as int] == 0 {
        assert(m2.memory =~= end.memory);
        2
    } else {
        let m3 = execute(program, m2)->Ok_0;
        lemma_run_one(program, m2, m3);
        lemma_run_joined(program, m, 2, m2, 1, m3);
        let looped = lemma_sub_loop(program, at, dst, src, id, m3);
        assert(subtracted(m3, dst, src, at + 11).memory =~= end.memory);
        lemma_run_joined(program, m, 3, m3, looped, end);
        3 + looped
    }
}

/// The start of the code of a copy: `dst` is cleared, and the rest is
/// skipped when `src` holds zero.
pub open spec fn copy_open(dst: MemoryUnit, src: MemoryUnit, id: nat) -> Seq<InstructionView> {
    seq![
        op(Instruction::MoveStack(dst)),
        op(Instruction::Clear),
        op(Instruction::MoveStack(src)),
        InstructionView::JumpZero(label_name(id, "skip_copy"@)),
    ]
}

/// The loop of the code of a copy: `temp` is cleared, and `src` is emptied
/// into both `dst` and `temp`.
pub open spec fn copy_fill(dst: MemoryUnit, src: MemoryUnit, temp: MemoryUnit, id: nat) -> Seq<
    InstructionView,
> {
    let turn = label_name(id, "copy"@);
    seq![
        op(Instruction::MoveStack(temp)),
        op(Instruction::Clear),
        InstructionView::Label(turn),
        op(Instruction::MoveStack(dst)),
        op(Instruction::Increment(1)),
        op(Instruction::MoveStack(temp)),
        op(Instruction::Increment(1)),
        op(Instruction::MoveStack(src)),
        op(Instruction::Decrement(1)),
        InstructionView::JumpNotZero(turn),
    ]
}

/// The end of the code of a copy: `temp` is cleared, and the code moves to
/// `dst`.
pub open spec fn copy_close(dst: MemoryUnit, temp: MemoryUnit, id: nat) -> Seq<InstructionView> {
    seq![
        op(Instruction::MoveStack(temp)),
        op(Instruction::Clear),
        InstructionView::Label(label_name(id, "skip_copy"@)),
        op(Instruction::MoveStack(dst)),
    ]
}

/// The instructions that `copy` emits for `dst` and `src` when it takes the
/// cell at `temp` as its temporary and `id` is the identity of its labels:
/// `dst` is cleared; unless `src` holds zero, `temp` is cleared, `src` is
/// emptied into both `dst` and `temp`, `temp` is moved back to `src` and
/// cleared; at last the code moves to `dst`.
pub open spec fn copy_code(dst: MemoryUnit, src: MemoryUnit, temp: MemoryUnit, id: nat) -> Seq<
    InstructionView,
> {
    copy_open(dst, src, id) + copy_fill(dst, src, temp, id) + move_code(src, temp, id + 1)
        + copy_close(dst, temp, id)
}

/// The code of a copy is placed at `at`, its labels and those of the move
/// inside it name their places in it, and the three cells are different.
pub open spec fn copy_placed(
    program: Seq<InstructionView>,
    at: int,
    dst: MemoryUnit,
    src: MemoryUnit,
    temp: MemoryUnit,
    id: nat,
) -> bool {
    &&& placed(program, at, copy_code(dst, src, temp, id))
    &&& resolve(program, label_name(id, "copy"@)) == Some(at + 7)
    &&& resolve(program, label_name(id, "skip_copy"@)) == Some(at + 28)
    &&& resolve(program, label_name(id + 1, "move"@)) == Some(at + 19)
    &&& resolve(program, label_name(id + 1, "skip_move"@)) == Some(at + 25)
    &&& dst < STACK_SIZE
    &&& src < STACK_SIZE
    &&& temp < STACK_SIZE
    &&& dst != src
    &&& dst != temp
    &&& src != temp
}

/// The machine after the cell at `src` has been copied to the cell at
/// `dst`: `dst` holds what `src` holds, `src` holds what it held, and the
/// temporary holds zero if it was used at all.
pub open spec fn copied(m: Machine, dst: MemoryUnit, src: MemoryUnit, temp: MemoryUnit, cursor: int)
    -> Machine {
    Machine {
        memory: if m.memory[src as int] == 0 {
            m.memory.update(dst as int, 0)
        } else {
            m.memory.update(dst as int, m.memory[src as int]).update(temp as int, 0)
        },
        pointer: dst as int,
        cursor,
        ..m
    }
}

/// The machine in the loop of a copy, after the cell at `src` has been
/// emptied into the cells at `dst` and at `temp`.
pub open spec fn doubled(m: Machine, dst: MemoryUnit, src: MemoryUnit, temp: MemoryUnit, cursor: int)
    -> Machine {
    Machine {
        memory: m.memory.update(
            dst as int,
            wrap_add(m.memory[dst as int], m.memory[src as int]),
        ).update(temp as int, wrap_add(m.memory[temp as int], m.memory[src as int])).update(
            src as int,
            0,
        ),
        pointer: src as int,
        cursor,
        ..m
    }
}

/// One turn of the loop of a copy.
proof fn lemma_copy_turn(
    program: Seq<InstructionView>,
    at: int,
    dst: MemoryUnit,
    src: MemoryUnit,
    temp: MemoryUnit,
    id: nat,
    m: Machine,
) -> (end: Machine)
    requires
        copy_placed(program, at, dst, src, temp, id),
        m.wf(),
        m.cursor == at + 7,
        m.memory[src as int] >= 1,
    ensures
        arrives(program, m, 7, end),
        end == (Machine {
            memory: m.memory.update(dst as int, wrap_add(m.memory[dst as int], 1)).update(
                temp as int,
                wrap_add(m.memory[temp as int], 1),
            ).update(src as int, (m.memory[src as int] - 1) as MemoryUnit),
            pointer: src as int,
            cursor: if m.memory[src as int] == 1 {
                at + 14
            } else {
                at + 7
            },
            ..m
        }),
{
    let code = copy_code(dst, src, temp, id);
    assert(program[at + 7] == code[7]);
    assert(program[at + 8] == code[8]);
    assert(program[at + 9] == code[9]);
    assert(program[at + 10] == code[10]);
    assert(program[at + 11] == code[11]);
    assert(program[at + 12] == code[12]);
    assert(program[at + 13] == code[13]);
    let m1 = execute(program, m)->Ok_0;
    lemma_run_one(program, m, m1);
    let m2 = execute(program, m1)->Ok_0;
    lemma_run_one(program, m1, m2);
    let m3 = execute(program, m2)->Ok_0;
    lemma_run_one(program, m2, m3);
    let m4 = execute(program, m3)->Ok_0;
    lemma_run_one(program, m3, m4);
    let m5 = execute(program, m4)->Ok_0;
    lemma_run_one(program, m4, m5);
    let m6 = execute(program, m5)->Ok_0;
    lemma_run_one(program, m5, m6);
    let m7 = execute(program, m6)->Ok_0;
    lemma_run_one(program, m6, m7);
    lemma_run_joined(program, m, 1, m1, 1, m2);
    lemma_run_joined(program, m, 2, m2, 1, m3);
    lemma_run_joined(program, m, 3, m3, 1, m4);
    lemma_run_joined(program, m, 4, m4, 1, m5);
    lemma_run_joined(program, m, 5, m5, 1, m6);
    lemma_run_joined(program, m, 6, m6, 1, m7);
    assert(m7.memory =~= m.memory.update(dst as int, wrap_add(m.memory[dst as int], 1)).update(
        temp as int,
        wrap_add(m.memory[temp as int], 1),
    ).update(src as int, (m.memory[src as int] - 1) as MemoryUnit));
    m7
}

/// The loop of a copy.
proof fn lemma_copy_loop(
    program: Seq<InstructionView>,
    at: int,
    dst: MemoryUnit,
    src: MemoryUnit,
    temp: MemoryUnit,
    id: nat,
    m: Machine,
) -> (n: nat)
    requires
        copy_placed(program, at, dst, src, temp, id),
        m.wf(),
        m.cursor == at + 7,
        m.memory[src as int] >= 1,
    ensures
        arrives(program, m, n, doubled(m, dst, src, temp, at + 14)),
    decreases m.memory[src as int],
{
    let end = doubled(m, dst, src, temp, at + 14);
    let turned = lemma_copy_turn(program, at, dst, src, temp, id, m);
    if m.memory[src as int] == 1 {
        assert(turned.memory =~= end.memory);
        7
    } else {
        let rest = lemma_copy_loop(program, at, dst, src, temp, id, turned);
        assert(doubled(turned, dst, src, temp, at + 14).memory =~= end.memory);
        lemma_run_joined(program, m, 7, turned, rest, end);
        7 + rest
    }
}

/// The start of a copy: `dst` is cleared and the machine looks at `src`.
proof fn lemma_copy_start(
    program: Seq<InstructionView>,
    at: int,
    dst: MemoryUnit,
    src: MemoryUnit,
    temp: MemoryUnit,
    id: nat,
    m: Machine,
) -> (end: Machine)
    requires
        copy_placed(program, at, dst, src, temp, id),
        m.wf(),
        m.cursor == at,
    ensures
        arrives(program, m, 4, end),
        end == (Machine {
            memory: m.memory.update(dst as int, 0),
            pointer: src as int,
            cursor: if m.memory[src as int] == 0 {
                at + 28
            } else {
                at + 4
            },
            ..m
        }),
{
    let code = copy_code(dst, src, temp, id);
    assert(program[at + 0] == code[0]);
    assert(program[at + 1] == code[1]);
    assert(program[at + 2] == code[2]);
    assert(program[at + 3] == code[3]);
    let m1 = execute(program, m)->Ok_0;
    lemma_run_one(program, m, m1);
    let m2 = execute(program, m1)->Ok_0;
    lemma_run_one(program, m1, m2);
    let m3 = execute(program, m2)->Ok_0;
    lemma_run_one(program, m2, m3);
    let m4 = execute(program, m3)->Ok_0;
    lemma_run_one(program, m3, m4);
    lemma_run_joined(program, m, 1, m1, 1, m2);
    lemma_run_joined(program, m, 2, m2, 1, m3);
    lemma_run_joined(program, m, 3, m3, 1, m4);
    m4
}

/// The way of a copy into its loop: the temporary is cleared.
proof fn lemma_copy_enter(
    program: Seq<InstructionView>,
    at: int,
    dst: MemoryUnit,
    src: MemoryUnit,
    temp: MemoryUnit,
    id: nat,
    m: Machine,
) -> (end: Machine)
    requires
        copy_placed(program, at, dst, src, temp, id),
        m.wf(),
        m.cursor == at + 4,
    ensures
        arrives(program, m, 3, end),
        end == (Machine {
            memory: m.memory.update(temp as int, 0),
            pointer: temp as int,
            cursor: at + 7,
            ..m
        }),
{
    let code = copy_code(dst, src, temp, id);
    assert(program[at + 4] == code[4]);
    assert(program[at + 5] == code[5]);
    assert(program[at + 6] == code[6]);
    let m1 = execute(program, m)->Ok_0;
    lemma_run_one(program, m, m1);
    let m2 = execute(program, m1)->Ok_0;
    lemma_run_one(program, m1, m2);
    let m3 = execute(program, m2)->Ok_0;
    lemma_run_one(program, m2, m3);
    lemma_run_joined(program, m, 1, m1, 1, m2);
    lemma_run_joined(program, m, 2, m2, 1, m3);
    m3
}

/// The move inside a copy: the temporary goes back to `src`.
proof fn lemma_copy_back(
    program: Seq<InstructionView>,
    at: int,
    dst: MemoryUnit,
    src: MemoryUnit,
    temp: MemoryUnit,
    id: nat,
    m: Machine,
) -> (n: nat)
    requires
        copy_placed(program, at, dst, src, temp, id),
        m.wf(),
        m.cursor == at + 14,
    ensures
        arrives(program, m, n, moved(m, src, temp, at + 25)),
{
    let code = copy_code(dst, src, temp, id);
    let inner = move_code(src, temp, id + 1);
    assert forall|j: int| 0 <= j < inner.len() implies #[trigger] program[at + 14 + j]
        == inner[j] by {
        assert(program[at + (14 + j)] == code[14 + j]);
    }
    let transfer = transfer_code(
        src,
        temp,
        label_name(id + 1, "move"@),
        label_name(id + 1, "skip_move"@),
    );
    let second = at + 14 + 2;
    assert forall|j: int| 0 <= j < transfer.len() implies #[trigger] program[second + j]
        == transfer[j] by {
        assert(program[at + (16 + j)] == code[16 + j]);
    }
    assert(placed(program, second, transfer));
    assert(placed(program, at + 14, inner));
    lemma_move_effect(program, at + 14, src, temp, id + 1, m)
}

/// The end of a copy after its loop: the temporary is cleared and the
/// machine moves to `dst`.
proof fn lemma_copy_leave(
    program: Seq<InstructionView>,
    at: int,
    dst: MemoryUnit,
    src: MemoryUnit,
    temp: MemoryUnit,
    id: nat,
    m: Machine,
) -> (end: Machine)
    requires
        copy_placed(program, at, dst, src, temp, id),
        m.wf(),
        m.cursor == at + 25,
    ensures
        arrives(program, m, 4, end),
        end == (Machine {
            memory: m.memory.update(temp as int, 0),
            pointer: dst as int,
            cursor: at + 29,
            ..m
        }),
{
    let code = copy_code(dst, src, temp, id);
    assert(program[at + 25] == code[25]);
    assert(program[at + 26] == code[26]);
    assert(program[at + 27] == code[27]);
    assert(program[at + 28] == code[28]);
    let m1 = execute(program, m)->Ok_0;
    lemma_run_one(program, m, m1);
    let m2 = execute(program, m1)->Ok_0;
    lemma_run_one(program, m1, m2);
    let m3 = execute(program, m2)->Ok_0;
    lemma_run_one(program, m2, m3);
    let m4 = execute(program, m3)->Ok_0;
    lemma_run_one(program, m3, m4);
    lemma_run_joined(program, m, 1, m1, 1, m2);
    lemma_run_joined(program, m, 2, m2, 1, m3);
    lemma_run_joined(program, m, 3, m3, 1, m4);
    m4
}

/// The last instruction of a copy: the machine moves to `dst`.
proof fn lemma_copy_skip(
    program: Seq<InstructionView>,
    at: int,
    dst: MemoryUnit,
    src: MemoryUnit,
    temp: MemoryUnit,
    id: nat,
    m: Machine,
) -> (end: Machine)
    requires
        copy_placed(program, at, dst, src, temp, id),
        m.wf(),
        m.cursor == at + 28,
    ensures
        arrives(program, m, 1, end),
        end == (Machine { pointer: dst as int, cursor: at + 29, ..m }),
{
    let code = copy_code(dst, src, temp, id);
    assert(program[at + 28] == code[28]);
    let m1 = execute(program, m)->Ok_0;
    lemma_run_one(program, m, m1);
    m1
}

/// Copying a cell to another: when the code that `copy` emits for `dst` and
/// `src` with the temporary `temp`, three different cells, is placed at
/// `at` in a program whose labels of the identities `id` and `id + 1` name
/// their places in it, and the machine is at its first instruction, then
/// the machine arrives behind the code; the cell at `dst` then holds what
/// the cell at `src` held, and the cell at `src` holds it still.
pub proof fn lemma_copy_effect(
    program: Seq<InstructionView>,
    at: int,
    dst: MemoryUnit,
    src: MemoryUnit,
    temp: MemoryUnit,
    id: nat,
    m: Machine,
) -> (n: nat)
    requires
        copy_placed(program, at, dst, src, temp, id),
        m.wf(),
        m.cursor == at,
    ensures
        arrives(program, m, n, copied(m, dst, src, temp, at + 29)),
        copied(m, dst, src, temp, at + 29).memory[dst as int] == m.memory[src as int],
        copied(m, dst, src, temp, at + 29).memory[src as int] == m.memory[src as int],
{
    let end = copied(m, dst, src, temp, at + 29);
    let started = lemma_copy_start(program, at, dst, src, temp, id, m);
    if m.memory[src as int] == 0 {
        let skipped = lemma_copy_skip(program, at, dst, src, temp, id, started);
        assert(skipped.memory =~= end.memory);
        lemma_run_joined(program, m, 4, started, 1, end);
        5
    } else {
        let entered = lemma_copy_enter(program, at, dst, src, temp, id, started);
        lemma_run_joined(program, m, 4, started, 3, entered);
        let looped = lemma_copy_loop(program, at, dst, src, temp, id, entered);
        let filled = doubled(entered, dst, src, temp, at + 14);
        lemma_run_joined(program, m, 7, entered, looped, filled);
        let back = lemma_copy_back(program, at, dst, src, temp, id, filled);
        let restored = moved(filled, src, temp, at + 25);
        lemma_run_joined(program, m, 7 + looped, filled, back, restored);
        let left = lemma_copy_leave(program, at, dst, src, temp, id, restored);
        assert(left.memory =~= end.memory);
        lemma_run_joined(program, m, 7 + looped + back, restored, 4, end);
        7 + looped + back + 4
    }
}

/// The tokens of a transfer.
pub open spec fn transfer_tokens(
    dst: MemoryUnit,
    src: MemoryUnit,
    turn: Seq<char>,
    skip: Seq<char>,
) -> Seq<TokenView> {
    written(op(Instruction::MoveStack(src))) + written(InstructionView::JumpZero(skip)) + written(
        InstructionView::Label(turn),
    ) + written(op(Instruction::MoveStack(dst))) + written(op(Instruction::Increment(1)))
        + written(op(Instruction::MoveStack(src))) + written(op(Instruction::Decrement(1)))
        + written(InstructionView::JumpNotZero(turn)) + written(InstructionView::Label(skip))
}

/// The code of a transfer is written with the tokens of a transfer, and can
/// be read back.
pub proof fn lemma_transfer_written(
    dst: MemoryUnit,
    src: MemoryUnit,
    turn: Seq<char>,
    skip: Seq<char>,
)
    requires
        addressable(dst),
        addressable(src),
    ensures
        written_all(transfer_code(dst, src, turn, skip)) == transfer_tokens(dst, src, turn, skip),
        canonical(transfer_code(dst, src, turn, skip)),
{
    let code = transfer_code(dst, src, turn, skip);
    let c8 = seq![code[8]] + Seq::<InstructionView>::empty();
    lemma_written_first(code[8], Seq::empty());
    let c7 = seq![code[7]] + c8;
    lemma_written_first(code[7], c8);
    let c6 = seq![code[6]] + c7;
    lemma_written_first(code[6], c7);
    let c5 = seq![code[5]] + c6;
    lemma_written_first(code[5], c6);
    let c4 = seq![code[4]] + c5;
    lemma_written_first(code[4], c5);
    let c3 = seq![code[3]] + c4;
    lemma_written_first(code[3], c4);
    let c2 = seq![code[2]] + c3;
    lemma_written_first(code[2], c3);
    let c1 = seq![code[1]] + c2;
    lemma_written_first(code[1], c2);
    let c0 = seq![code[0]] + c1;
    lemma_written_first(code[0], c1);
    assert(c0 =~= code);
    assert(written_all(code) =~= transfer_tokens(dst, src, turn, skip));
}

/// What `mem_add` emits is the code for adding, written as tokens; the
/// assembler reads it back as that code.
pub proof fn lemma_mem_add_emits(s: GeneratorState, dst: MemoryUnit, src: MemoryUnit)
    requires
        addressable(dst),
        addressable(src),
    ensures
        s.mem_add(dst, src).output == s.output + written_all(add_code(dst, src, s.labels)),
        canonical(add_code(dst, src, s.labels)),
        assemble(written_all(add_code(dst, src, s.labels))) == Ok::<
            Seq<InstructionView>,
            Failure,
        >(add_code(dst, src, s.labels)),
{
    let turn = label_name(s.labels, "mem_add"@);
    let skip = label_name(s.labels, "skip_mem_add"@);
    lemma_transfer_written(dst, src, turn, skip);
    lemma_assembler_roundtrip(add_code(dst, src, s.labels));
    reveal_with_fuel(GeneratorState::push_times, 2);
    assert(s.mem_add(dst, src).output =~= s.output + transfer_tokens(dst, src, turn, skip));
}

/// What `mov` emits is the code for moving, written as tokens; the
/// assembler reads it back as that code.
pub proof fn lemma_move_emits(s: GeneratorState, dst: MemoryUnit, src: MemoryUnit)
    requires
        addressable(dst),
        addressable(src),
    ensures
        s.mov(dst, src).output == s.output + written_all(move_code(dst, src, s.labels)),
        canonical(move_code(dst, src, s.labels)),
        assemble(written_all(move_code(dst, src, s.labels))) == Ok::<
            Seq<InstructionView>,
            Failure,
        >(move_code(dst, src, s.labels)),
{
    let turn = label_name(s.labels, "move"@);
    let skip = label_name(s.labels, "skip_move"@);
    let clear = seq![op(Instruction::MoveStack(dst)), op(Instruction::Clear)];
    let transfer = transfer_code(dst, src, turn, skip);
    lemma_transfer_written(dst, src, turn, skip);
    lemma_written_joined(clear, transfer);
    let c1 = seq![clear[1]] + Seq::<InstructionView>::empty();
    lemma_written_first(clear[1], Seq::empty());
    lemma_written_first(clear[0], c1);
    assert(seq![clear[0]] + c1 =~= clear);
    let code = move_code(dst, src, s.labels);
    assert(canonical(code)) by {
        assert forall|i: int| 0 <= i < code.len() implies writable(#[trigger] code[i]) by {
            if i >= 2 {
                assert(code[i] == transfer[i - 2]);
            }
        }
        assert forall|i: int| 0 <= i < code.len() - 1 implies separate(
            #[trigger] code[i],
            code[i + 1],
        ) by {
            if i >= 2 {
                assert(code[i] == transfer[i - 2]);
                assert(code[i + 1] == transfer[i - 1]);
            }
        }
    }
    lemma_assembler_roundtrip(code);
    reveal_with_fuel(GeneratorState::push_times, 2);
    assert(s.mov(dst, src).output =~= s.output + (written_all(clear) + transfer_tokens(
        dst,
        src,
        turn,
        skip,
    )));
}

/// The start of the code of a copy is canonical, and written as `copy`
/// emits it.
proof fn lemma_copy_open_emits(s: GeneratorState, dst: MemoryUnit, src: MemoryUnit)
    requires
        addressable(dst),
        addressable(src),
    ensures
        canonical(copy_open(dst, src, s.labels)),
        s.clear(dst).fresh().goto(src).jze(label_name(s.labels, "skip_copy"@)).output == s.output
            + written_all(copy_open(dst, src, s.labels)),
{
    let code = copy_open(dst, src, s.labels);
    let h1 = seq![code[0]];
    lemma_written_one(code[0]);
    let h2 = h1.push(code[1]);
    lemma_written_pushed(h1, code[1]);
    let h3 = h2.push(code[2]);
    lemma_written_pushed(h2, code[2]);
    let h4 = h3.push(code[3]);
    lemma_written_pushed(h3, code[3]);
    assert(h4 =~= code);
    assert(s.clear(dst).fresh().goto(src).jze(label_name(s.labels, "skip_copy"@)).output
        =~= s.output + written_all(code));
}

/// The loop of the code of a copy is canonical, and written as `copy`
/// emits it.
proof fn lemma_copy_fill_emits(
    s: GeneratorState,
    dst: MemoryUnit,
    src: MemoryUnit,
    temp: MemoryUnit,
    id: nat,
)
    requires
        addressable(dst),
        addressable(src),
        addressable(temp),
    ensures
        canonical(copy_fill(dst, src, temp, id)),
        s.clear(temp).create_label(label_name(id, "copy"@)).goto(dst).add(1).goto(temp).add(
            1,
        ).goto(src).sub(1).jnze(label_name(id, "copy"@)).output == s.output + written_all(
            copy_fill(dst, src, temp, id),
        ),
        s.clear(temp).create_label(label_name(id, "copy"@)).goto(dst).add(1).goto(temp).add(
            1,
        ).goto(src).sub(1).jnze(label_name(id, "copy"@)).labels == s.labels,
{
    let code = copy_fill(dst, src, temp, id);
    let h1 = seq![code[0]];
    lemma_written_one(code[0]);
    let h2 = h1.push(code[1]);
    lemma_written_pushed(h1, code[1]);
    let h3 = h2.push(code[2]);
    lemma_written_pushed(h2, code[2]);
    let h4 = h3.push(code[3]);
    lemma_written_pushed(h3, code[3]);
    let h5 = h4.push(code[4]);
    lemma_written_pushed(h4, code[4]);
    let h6 = h5.push(code[5]);
    lemma_written_pushed(h5, code[5]);
    let h7 = h6.push(code[6]);
    lemma_written_pushed(h6, code[6]);
    let h8 = h7.push(code[7]);
    lemma_written_pushed(h7, code[7]);
    let h9 = h8.push(code[8]);
    lemma_written_pushed(h8, code[8]);
    let h10 = h9.push(code[9]);
    lemma_written_pushed(h9, code[9]);
    assert(h10 =~= code);
    reveal_with_fuel(GeneratorState::push_times, 2);
    assert(s.clear(temp).create_label(label_name(id, "copy"@)).goto(dst).add(1).goto(temp).add(
        1,
    ).goto(src).sub(1).jnze(label_name(id, "copy"@)).output =~= s.output + written_all(code));
}

/// The end of the code of a copy is canonical, and written as `copy` emits
/// it.
proof fn lemma_copy_close_emits(s: GeneratorState, dst: MemoryUnit, temp: MemoryUnit, id: nat)
    requires
        addressable(dst),
        addressable(temp),
    ensures
        canonical(copy_close(dst, temp, id)),
        s.free(temp).create_label(label_name(id, "skip_copy"@)).goto(dst).output == s.output
            + written_all(copy_close(dst, temp, id)),
{
    let code = copy_close(dst, temp, id);
    let h1 = seq![code[0]];
    lemma_written_one(code[0]);
    let h2 = h1.push(code[1]);
    lemma_written_pushed(h1, code[1]);
    let h3 = h2.push(code[2]);
    lemma_written_pushed(h2, code[2]);
    let h4 = h3.push(code[3]);
    lemma_written_pushed(h3, code[3]);
    assert(h4 =~= code);
    assert(s.free(temp).create_label(label_name(id, "skip_copy"@)).goto(dst).output =~= s.output
        + written_all(code));
}

/// The code of a copy is canonical and is written with the tokens of its
/// four parts.
proof fn lemma_copy_written(dst: MemoryUnit, src: MemoryUnit, temp: MemoryUnit, id: nat)
    requires
        addressable(dst),
        addressable(src),
        addressable(temp),
    ensures
        canonical(copy_code(dst, src, temp, id)),
        written_all(copy_code(dst, src, temp, id)) == written_all(copy_open(dst, src, id))
            + written_all(copy_fill(dst, src, temp, id)) + written_all(
            move_code(src, temp, id + 1),
        ) + written_all(copy_close(dst, temp, id)),
{
    let s = GeneratorState { cells: Seq::empty(), pointer: 0, output: Seq::empty(), labels: id };
    let inner = GeneratorState { labels: id + 1, ..s };
    let a = copy_open(dst, src, id);
    let b = copy_fill(dst, src, temp, id);
    let c = move_code(src, temp, id + 1);
    let d = copy_close(dst, temp, id);
    lemma_copy_open_emits(s, dst, src);
    lemma_copy_fill_emits(s, dst, src, temp, id);
    lemma_move_emits(inner, src, temp);
    lemma_copy_close_emits(s, dst, temp, id);
    lemma_written_joined(a, b);
    lemma_written_joined(a + b, c);
    lemma_written_joined(a + b + c, d);
    assert(a.last() == a[3]);
    assert(b.last() == b[9]);
    assert(c[0] == op(Instruction::MoveStack(src)));
    assert(c.last() == c[10]);
    lemma_canonical_joined(a, b);
    assert((a + b).last() == b.last());
    lemma_canonical_joined(a + b, c);
    assert((a + b + c).last() == c.last());
    lemma_canonical_joined(a + b + c, d);
}

/// What `copy` emits, when it takes the cell at `temp` as its temporary, is
/// the code for copying, written as tokens; the assembler reads it back as
/// that code.
pub proof fn lemma_copy_through_emits(
    s: GeneratorState,
    dst: MemoryUnit,
    src: MemoryUnit,
    temp: MemoryUnit,
)
    requires
        addressable(dst),
        addressable(src),
        addressable(temp),
    ensures
        s.copy_through(dst, src, temp).output == s.output + written_all(
            copy_code(dst, src, temp, s.labels),
        ),
        assemble(written_all(copy_code(dst, src, temp, s.labels))) == Ok::<
            Seq<InstructionView>,
            Failure,
        >(copy_code(dst, src, temp, s.labels)),
{
    let id = s.labels;
    let turn = label_name(id, "copy"@);
    let skip = label_name(id, "skip_copy"@);
    let code = copy_code(dst, src, temp, id);
    lemma_copy_written(dst, src, temp, id);
    lemma_assembler_roundtrip(code);
    let wa = written_all(copy_open(dst, src, id));
    let wb = written_all(copy_fill(dst, src, temp, id));
    let wc = written_all(move_code(src, temp, id + 1));
    let wd = written_all(copy_close(dst, temp, id));
    lemma_copy_open_emits(s, dst, src);
    let before = s.clear(dst).fresh().goto(src).jze(skip);
    assert(before.output == s.output + wa);
    let marked = before.mark(temp as int, Cell::Temporary);
    lemma_copy_fill_emits(marked, dst, src, temp, id);
    let filled = marked.clear(temp).create_label(turn).goto(dst).add(1).goto(temp).add(1).goto(
        src,
    ).sub(1).jnze(turn);
    assert(filled.output == s.output + wa + wb);
    assert(filled.labels == id + 1);
    lemma_move_emits(filled, src, temp);
    let returned = filled.mov(src, temp);
    assert(returned.output == s.output + wa + wb + wc);
    lemma_copy_close_emits(returned, dst, temp, id);
    let end = returned.free(temp).create_label(skip).goto(dst);
    assert(end.output == s.output + wa + wb + wc + wd);
    assert(s.copy_through(dst, src, temp) == end);
    assert(s.output + wa + wb + wc + wd =~= s.output + (wa + wb + wc + wd));
}

/// What `copy` emits, when the first unused cell can be addressed, is the
/// code for copying with that cell as the temporary, written as tokens;
/// the assembler reads it back as that code.
pub proof fn lemma_copy_emits(s: GeneratorState, dst: MemoryUnit, src: MemoryUnit, temp: MemoryUnit)
    requires
        addressable(dst),
        addressable(src),
        addressable(temp),
        first_unused(s.cells, 0) == Some(temp as int),
    ensures
        s.copy(dst, src) matches Ok(end) && end.output == s.output + written_all(
            copy_code(dst, src, temp, s.labels),
        ),
        assemble(written_all(copy_code(dst, src, temp, s.labels))) == Ok::<
            Seq<InstructionView>,
            Failure,
        >(copy_code(dst, src, temp, s.labels)),
{
    lemma_copy_through_emits(s, dst, src, temp);
}

} // verus!
