//! The labels that the generator emits are all different: each bears the
//! identity that was handed out for it, and its purpose.
use vstd::prelude::*;
use crate::bytecode::{Instruction, InstructionView};
use crate::bytecode::writing::op;
use crate::generation::effects::{
    add_code, added, arrives, copied, copy_close, copy_code, copy_fill, copy_open,
    lemma_copy_effect, lemma_mem_add_effect, lemma_mem_sub_effect, lemma_move_effect, move_code,
    moved, placed, sub_code, subtracted, transfer_code,
};
use crate::generation::label_name;
use crate::interpreter::{
    Machine, MemoryUnit, STACK_SIZE, check_labels, find_label, first_redefinition, redefines,
    resolve, wrap_add,
};
use crate::text::{decimal, digit_char};
use crate::tokenizer::{CharClass, digit_value, in_class, numeral, run, run_len};

verus! {

/// The numeral of a number is made of decimal digits, at least one.
pub proof fn lemma_decimal_digits(n: nat)
    ensures
        decimal(n).len() >= 1,
        forall|i: int|
            0 <= i < decimal(n).len() ==> in_class(#[trigger] decimal(n)[i], CharClass::Decimal),
    decreases n,
{
    if n >= 10 {
        lemma_decimal_digits(n / 10);
    }
}

/// The numeral of a number denotes the number.
pub proof fn lemma_decimal_value(n: nat)
    ensures
        numeral(decimal(n), 10) == n,
    decreases n,
{
    let d = (n % 10) as int;
    assert(digit_value(digit_char(d)) == Some(d as nat));
    if n < 10 {
        assert(decimal(n).drop_last() =~= Seq::<char>::empty());
        assert(numeral(decimal(n).drop_last(), 10) == 0);
    } else {
        lemma_decimal_value(n / 10);
        assert(decimal(n).drop_last() =~= decimal(n / 10));
    }
}

/// A run of `n` characters of a class that ends at a character of another
/// class, or at the end, has the length `n`.
pub proof fn lemma_run_length(chars: Seq<char>, from: int, n: nat, class: CharClass)
    requires
        0 <= from,
        from + n <= chars.len(),
        forall|k: int| from <= k < from + n ==> in_class(#[trigger] chars[k], class),
        from + n == chars.len() || !in_class(chars[from + n], class),
    ensures
        run_len(chars, from, class) == n,
    decreases n,
{
    if n > 0 {
        lemma_run_length(chars, from + 1, (n - 1) as nat, class);
    }
}

/// The identity that a label bears: the number after its first two
/// characters.
pub open spec fn label_identity(name: Seq<char>) -> nat {
    numeral(run(name, 2, CharClass::Decimal), 10)
}

/// A label bears the identity that it was named after.
pub proof fn lemma_label_identity(id: nat, purpose: Seq<char>)
    ensures
        label_identity(label_name(id, purpose)) == id,
{
    reveal_strlit("__");
    reveal_strlit("_");
    let digits = decimal(id);
    let name = label_name(id, purpose);
    lemma_decimal_digits(id);
    lemma_decimal_value(id);
    assert forall|k: int| 2 <= k < 2 + digits.len() implies in_class(
        #[trigger] name[k],
        CharClass::Decimal,
    ) by {
        assert(name[k] == digits[k - 2]);
    }
    assert(name[2 + digits.len() as int] == '_');
    lemma_run_length(name, 2, digits.len(), CharClass::Decimal);
    assert(run(name, 2, CharClass::Decimal) =~= digits);
}

/// No two instructions define the same label.
#[verifier::opaque]
pub open spec fn distinct_labels(program: Seq<InstructionView>) -> bool {
    forall|i: int, j: int|
        0 <= i < program.len() && 0 <= j < program.len() && (#[trigger] program[i]) is Label
            && program[i] == #[trigger] program[j] ==> i == j
}

/// Every label that an instruction defines bears an identity below `bound`.
#[verifier::opaque]
pub open spec fn labels_below(program: Seq<InstructionView>, bound: nat) -> bool {
    forall|i: int|
        0 <= i < program.len() ==> (#[trigger] program[i] matches InstructionView::Label(name)
            ==> label_identity(name) < bound)
}

/// The first instruction from `from` on that defines the label `name` is the
/// one at `index`, when no other before `index` defines it.
pub proof fn lemma_find_label(
    program: Seq<InstructionView>,
    name: Seq<char>,
    from: int,
    index: int,
)
    requires
        0 <= from <= index < program.len(),
        program[index] == InstructionView::Label(name),
        forall|k: int| from <= k < index ==> program[k] != InstructionView::Label(name),
    ensures
        find_label(program, name, from) == Some(index + 1),
    decreases index - from,
{
    if from < index {
        lemma_find_label(program, name, from + 1, index);
    }
}

/// In a program in which no two instructions define the same label, a
/// label names the place behind the instruction that defines it.
pub proof fn lemma_resolve_distinct(program: Seq<InstructionView>, index: int, name: Seq<char>)
    requires
        distinct_labels(program),
        0 <= index < program.len(),
        program[index] == InstructionView::Label(name),
    ensures
        resolve(program, name) == Some(index + 1),
{
    reveal(distinct_labels);
    assert forall|k: int| 0 <= k < index implies program[k] != InstructionView::Label(name) by {
        if program[k] == InstructionView::Label(name) {
            assert(program[index] == program[k]);
        }
    }
    lemma_find_label(program, name, 0, index);
}

/// No instruction from `from` on defines a label again, when no two
/// instructions define the same label.
pub proof fn lemma_no_redefinition(program: Seq<InstructionView>, from: int)
    requires
        distinct_labels(program),
        0 <= from,
    ensures
        first_redefinition(program, from) is None,
    decreases program.len() - from,
{
    if from < program.len() {
        match program[from] {
            InstructionView::Label(name) => {
                lemma_resolve_distinct(program, from, name);
                assert(!redefines(program, from));
            },
            _ => {},
        }
        lemma_no_redefinition(program, from + 1);
    }
}

/// A program in which no two instructions define the same label passes the
/// interpreter's check of its labels.
pub proof fn lemma_distinct_labels_check(program: Seq<InstructionView>)
    requires
        distinct_labels(program),
    ensures
        check_labels(program) is Ok,
{
    lemma_no_redefinition(program, 0);
}

/// Every label that an instruction defines bears an identity of at least
/// `bound`.
#[verifier::opaque]
pub open spec fn labels_from(program: Seq<InstructionView>, bound: nat) -> bool {
    forall|i: int|
        0 <= i < program.len() ==> (#[trigger] program[i] matches InstructionView::Label(name)
            ==> label_identity(name) >= bound)
}

/// Code whose labels are all different and bear identities from `bound` up
/// to, not including, `more`, written after a program whose labels are all
/// different and bear identities below `bound`, gives a program whose
/// labels are all different and bear identities below `more`.
pub proof fn lemma_labels_joined(
    program: Seq<InstructionView>,
    code: Seq<InstructionView>,
    bound: nat,
    more: nat,
)
    requires
        distinct_labels(program),
        labels_below(program, bound),
        distinct_labels(code),
        labels_below(code, more),
        bound <= more,
        labels_from(code, bound),
    ensures
        distinct_labels(program + code),
        labels_below(program + code, more),
{
    reveal(distinct_labels);
    reveal(labels_below);
    reveal(labels_from);
    let whole = program + code;
    assert forall|i: int| 0 <= i < whole.len() implies (#[trigger] whole[i]
        matches InstructionView::Label(name) ==> label_identity(name) < more) by {
        if i < program.len() {
            assert(whole[i] == program[i]);
        } else {
            assert(whole[i] == code[i - program.len()]);
        }
    }
    assert forall|i: int, j: int|
        0 <= i < whole.len() && 0 <= j < whole.len() && (#[trigger] whole[i]) is Label && whole[i]
            == #[trigger] whole[j] implies i == j by {
        if i < program.len() {
            assert(whole[i] == program[i]);
        } else {
            assert(whole[i] == code[i - program.len()]);
        }
        if j < program.len() {
            assert(whole[j] == program[j]);
        } else {
            assert(whole[j] == code[j - program.len()]);
        }
    }
}

/// The label that an instruction jumps to, if it is a jump.
pub open spec fn jump_target(i: InstructionView) -> Option<Seq<char>> {
    match i {
        InstructionView::Jump(name) => Some(name),
        InstructionView::JumpZero(name) => Some(name),
        InstructionView::JumpNotZero(name) => Some(name),
        _ => None,
    }
}

/// Every jump names a label that an instruction of the program defines.
#[verifier::opaque]
pub open spec fn jumps_land(program: Seq<InstructionView>) -> bool {
    forall|i: int|
        0 <= i < program.len() ==> ((#[trigger] jump_target(program[i])) matches Some(name)
            ==> resolve(program, name) is Some)
}

/// A jump of a program in which every jump lands names a place.
pub proof fn lemma_jump_lands(program: Seq<InstructionView>, index: int)
    requires
        jumps_land(program),
        0 <= index < program.len(),
        jump_target(program[index]) is Some,
    ensures
        resolve(program, jump_target(program[index])->Some_0) is Some,
{
    reveal(jumps_land);
}

/// A label that an instruction from `from` on defines names a place.
pub proof fn lemma_defined(program: Seq<InstructionView>, name: Seq<char>, from: int, index: int)
    requires
        0 <= from <= index < program.len(),
        program[index] == InstructionView::Label(name),
    ensures
        find_label(program, name, from) is Some,
    decreases index - from,
{
    if from < index && program[from] != InstructionView::Label(name) {
        lemma_defined(program, name, from + 1, index);
    }
}

/// A label that names a place is defined by the instruction before that
/// place.
pub proof fn lemma_found(program: Seq<InstructionView>, name: Seq<char>, from: int)
    requires
        0 <= from,
        find_label(program, name, from) is Some,
    ensures
        from < find_label(program, name, from)->Some_0 <= program.len(),
        program[find_label(program, name, from)->Some_0 - 1] == InstructionView::Label(name),
    decreases program.len() - from,
{
    if from < program.len() && program[from] != InstructionView::Label(name) {
        lemma_found(program, name, from + 1);
    }
}

/// Code in which every jump lands, written after a program in which every
/// jump lands, gives a program in which every jump lands.
pub proof fn lemma_jumps_joined(program: Seq<InstructionView>, code: Seq<InstructionView>)
    requires
        jumps_land(program),
        jumps_land(code),
    ensures
        jumps_land(program + code),
{
    reveal(jumps_land);
    let whole = program + code;
    assert forall|i: int| 0 <= i < whole.len() implies ((#[trigger] jump_target(whole[i]))
        matches Some(name) ==> resolve(whole, name) is Some) by {
        if jump_target(whole[i]) is Some {
            let name = jump_target(whole[i])->Some_0;
            if i < program.len() {
                assert(whole[i] == program[i]);
                assert(jump_target(program[i]) is Some);
                lemma_found(program, name, 0);
                let k = find_label(program, name, 0)->Some_0 - 1;
                assert(whole[k] == program[k]);
                lemma_defined(whole, name, 0, k);
            } else {
                assert(whole[i] == code[i - program.len()]);
                assert(jump_target(code[i - program.len()]) is Some);
                lemma_found(code, name, 0);
                let k = find_label(code, name, 0)->Some_0 - 1;
                assert(whole[program.len() + k] == code[k]);
                lemma_defined(whole, name, 0, program.len() + k);
            }
        }
    }
}

/// Code without jumps is code in which every jump lands.
pub proof fn lemma_no_jumps(code: Seq<InstructionView>)
    requires
        forall|i: int| 0 <= i < code.len() ==> (#[trigger] jump_target(code[i])) is None,
    ensures
        jumps_land(code),
{
    reveal(jumps_land);
}

/// Labels that bear identities below a bound bear identities below any
/// greater bound.
pub proof fn lemma_bound_raised(program: Seq<InstructionView>, bound: nat, more: nat)
    requires
        labels_below(program, bound),
        bound <= more,
    ensures
        labels_below(program, more),
{
    reveal(labels_below);
}

/// An instruction that defines no label, written after a program, leaves
/// the labels of the program as they are.
pub proof fn lemma_unlabelled_joined(program: Seq<InstructionView>, code: Seq<InstructionView>, bound: nat)
    requires
        distinct_labels(program),
        labels_below(program, bound),
        forall|i: int| 0 <= i < code.len() ==> !(#[trigger] code[i] is Label),
    ensures
        distinct_labels(program + code),
        labels_below(program + code, bound),
{
    reveal(distinct_labels);
    reveal(labels_below);
    reveal(labels_from);
    lemma_labels_joined(program, code, bound, bound);
}

/// The label of a loop and the label behind it differ, whatever identity
/// they bear: their purposes have different lengths.
pub proof fn lemma_purposes_differ(id: nat)
    ensures
        label_name(id, "move"@) != label_name(id, "skip_move"@),
        label_name(id, "copy"@) != label_name(id, "skip_copy"@),
        label_name(id, "mem_add"@) != label_name(id, "skip_mem_add"@),
        label_name(id, "mem_sub"@) != label_name(id, "skip_mem_sub"@),
{
    reveal_strlit("move");
    reveal_strlit("skip_move");
    reveal_strlit("copy");
    reveal_strlit("skip_copy");
    reveal_strlit("mem_add");
    reveal_strlit("skip_mem_add");
    reveal_strlit("mem_sub");
    reveal_strlit("skip_mem_sub");
    assert(label_name(id, "move"@).len() != label_name(id, "skip_move"@).len());
    assert(label_name(id, "copy"@).len() != label_name(id, "skip_copy"@).len());
    assert(label_name(id, "mem_add"@).len() != label_name(id, "skip_mem_add"@).len());
    assert(label_name(id, "mem_sub"@).len() != label_name(id, "skip_mem_sub"@).len());
}

/// The labels of a transfer are in order when its two labels differ and
/// bear the identity `id`.
pub proof fn lemma_transfer_labels(
    dst: MemoryUnit,
    src: MemoryUnit,
    turn: Seq<char>,
    skip: Seq<char>,
    id: nat,
)
    requires
        turn != skip,
        label_identity(turn) == id,
        label_identity(skip) == id,
    ensures
        distinct_labels(transfer_code(dst, src, turn, skip)),
        labels_below(transfer_code(dst, src, turn, skip), id + 1),
        labels_from(transfer_code(dst, src, turn, skip), id),
{
    reveal(distinct_labels);
    reveal(labels_below);
    reveal(labels_from);
}

/// The labels of the code for adding are in order.
pub proof fn lemma_add_labels(dst: MemoryUnit, src: MemoryUnit, id: nat)
    ensures
        distinct_labels(add_code(dst, src, id)),
        labels_below(add_code(dst, src, id), id + 1),
        labels_from(add_code(dst, src, id), id),
{
    lemma_purposes_differ(id);
    lemma_label_identity(id, "mem_add"@);
    lemma_label_identity(id, "skip_mem_add"@);
    lemma_transfer_labels(
        dst,
        src,
        label_name(id, "mem_add"@),
        label_name(id, "skip_mem_add"@),
        id,
    );
}

/// The labels of the code for subtracting are in order.
pub proof fn lemma_sub_labels(dst: MemoryUnit, src: MemoryUnit, id: nat)
    ensures
        distinct_labels(sub_code(dst, src, id)),
        labels_below(sub_code(dst, src, id), id + 1),
        labels_from(sub_code(dst, src, id), id),
{
    reveal(distinct_labels);
    reveal(labels_below);
    reveal(labels_from);
    lemma_purposes_differ(id);
    lemma_label_identity(id, "mem_sub"@);
    lemma_label_identity(id, "skip_mem_sub"@);
}

/// The labels of the code for moving are in order.
pub proof fn lemma_move_labels(dst: MemoryUnit, src: MemoryUnit, id: nat)
    ensures
        distinct_labels(move_code(dst, src, id)),
        labels_below(move_code(dst, src, id), id + 1),
        labels_from(move_code(dst, src, id), id),
{
    reveal(distinct_labels);
    reveal(labels_below);
    reveal(labels_from);
    lemma_purposes_differ(id);
    lemma_label_identity(id, "move"@);
    lemma_label_identity(id, "skip_move"@);
    let transfer = transfer_code(dst, src, label_name(id, "move"@), label_name(id, "skip_move"@));
    lemma_transfer_labels(dst, src, label_name(id, "move"@), label_name(id, "skip_move"@), id);
    let clear = seq![op(Instruction::MoveStack(dst)), op(Instruction::Clear)];
    assert(distinct_labels(clear));
    assert(labels_below(clear, id));
    lemma_labels_joined(clear, transfer, id, id + 1);
    assert(labels_from(clear + transfer, id)) by {
        assert forall|i: int| 0 <= i < (clear + transfer).len() implies (#[trigger] (clear
            + transfer)[i] matches InstructionView::Label(name) ==> label_identity(name) >= id) by {
            if i >= 2 {
                assert((clear + transfer)[i] == transfer[i - 2]);
            }
        }
    }
}

/// The labels of the code for copying are in order: it bears two
/// identities, its own and that of the move inside it.
pub proof fn lemma_copy_labels(dst: MemoryUnit, src: MemoryUnit, temp: MemoryUnit, id: nat)
    ensures
        distinct_labels(copy_code(dst, src, temp, id)),
        labels_below(copy_code(dst, src, temp, id), id + 2),
        labels_from(copy_code(dst, src, temp, id), id),
{
    reveal(distinct_labels);
    reveal(labels_below);
    reveal(labels_from);
    lemma_purposes_differ(id);
    lemma_label_identity(id, "copy"@);
    lemma_label_identity(id, "skip_copy"@);
    lemma_move_labels(src, temp, id + 1);
    let a = copy_open(dst, src, id);
    let b = copy_fill(dst, src, temp, id);
    let c = move_code(src, temp, id + 1);
    let d = copy_close(dst, temp, id);
    let code = copy_code(dst, src, temp, id);
    assert forall|i: int| 0 <= i < code.len() implies (#[trigger] code[i]
        matches InstructionView::Label(name) ==> id <= label_identity(name) < id + 2) by {
        if i < 4 {
            assert(code[i] == a[i]);
        } else if i < 14 {
            assert(code[i] == b[i - 4]);
        } else if i < 25 {
            assert(code[i] == c[i - 14]);
        } else {
            assert(code[i] == d[i - 25]);
        }
    }
    assert forall|i: int, j: int|
        0 <= i < code.len() && 0 <= j < code.len() && (#[trigger] code[i]) is Label && code[i]
            == #[trigger] code[j] implies i == j by {
        if i < 4 {
            assert(code[i] == a[i]);
        } else if i < 14 {
            assert(code[i] == b[i - 4]);
        } else if i < 25 {
            assert(code[i] == c[i - 14]);
        } else {
            assert(code[i] == d[i - 25]);
        }
        if j < 4 {
            assert(code[j] == a[j]);
        } else if j < 14 {
            assert(code[j] == b[j - 4]);
        } else if j < 25 {
            assert(code[j] == c[j - 14]);
        } else {
            assert(code[j] == d[j - 25]);
        }
    }
}

/// Adding in place: in a program whose labels are all different and that
/// holds, from the place `at` on, the code that `mem_add` emits for two
/// different cells, a machine at that place arrives behind the code with
/// the wrapped sum of what the two cells held in `dst`, and with zero in
/// `src`.
pub proof fn lemma_mem_add_in_place(
    program: Seq<InstructionView>,
    at: int,
    dst: MemoryUnit,
    src: MemoryUnit,
    id: nat,
    m: Machine,
) -> (n: nat)
    requires
        distinct_labels(program),
        placed(program, at, add_code(dst, src, id)),
        dst < STACK_SIZE,
        src < STACK_SIZE,
        dst != src,
        m.wf(),
        m.cursor == at,
    ensures
        arrives(program, m, n, added(m, dst, src, at + 9)),
        added(m, dst, src, at + 9).memory[dst as int] == wrap_add(
            m.memory[dst as int],
            m.memory[src as int],
        ),
        added(m, dst, src, at + 9).memory[src as int] == 0,
{
    let code = add_code(dst, src, id);
    assert(program[at + 2] == code[2]);
    assert(program[at + 8] == code[8]);
    lemma_resolve_distinct(program, at + 2, label_name(id, "mem_add"@));
    lemma_resolve_distinct(program, at + 8, label_name(id, "skip_mem_add"@));
    lemma_mem_add_effect(program, at, dst, src, id, m)
}

/// Subtracting in place: in a program whose labels are all different and
/// that holds, from the place `at` on, the code that `mem_sub` emits for
/// two different cells, a machine at that place arrives behind the code
/// with both cells reduced by the lesser of what the two held.
pub proof fn lemma_mem_sub_in_place(
    program: Seq<InstructionView>,
    at: int,
    dst: MemoryUnit,
    src: MemoryUnit,
    id: nat,
    m: Machine,
) -> (n: nat)
    requires
        distinct_labels(program),
        placed(program, at, sub_code(dst, src, id)),
        dst < STACK_SIZE,
        src < STACK_SIZE,
        dst != src,
        m.wf(),
        m.cursor == at,
    ensures
        arrives(program, m, n, subtracted(m, dst, src, at + 11)),
{
    let code = sub_code(dst, src, id);
    assert(program[at + 2] == code[2]);
    assert(program[at + 10] == code[10]);
    lemma_resolve_distinct(program, at + 2, label_name(id, "mem_sub"@));
    lemma_resolve_distinct(program, at + 10, label_name(id, "skip_mem_sub"@));
    lemma_mem_sub_effect(program, at, dst, src, id, m)
}

/// Moving in place: in a program whose labels are all different and that
/// holds, from the place `at` on, the code that `mov` emits for two
/// different cells, a machine at that place arrives behind the code with
/// what `src` held in `dst`, and with zero in `src`.
pub proof fn lemma_move_in_place(
    program: Seq<InstructionView>,
    at: int,
    dst: MemoryUnit,
    src: MemoryUnit,
    id: nat,
    m: Machine,
) -> (n: nat)
    requires
        distinct_labels(program),
        placed(program, at, move_code(dst, src, id)),
        dst < STACK_SIZE,
        src < STACK_SIZE,
        dst != src,
        m.wf(),
        m.cursor == at,
    ensures
        arrives(program, m, n, moved(m, dst, src, at + 11)),
        moved(m, dst, src, at + 11).memory[dst as int] == m.memory[src as int],
        moved(m, dst, src, at + 11).memory[src as int] == 0,
{
    let code = move_code(dst, src, id);
    let transfer = transfer_code(dst, src, label_name(id, "move"@), label_name(id, "skip_move"@));
    let second = at + 2;
    assert forall|j: int| 0 <= j < transfer.len() implies #[trigger] program[second + j]
        == transfer[j] by {
        assert(program[at + (2 + j)] == code[2 + j]);
    }
    assert(program[at + 4] == code[4]);
    assert(program[at + 10] == code[10]);
    lemma_resolve_distinct(program, at + 4, label_name(id, "move"@));
    lemma_resolve_distinct(program, at + 10, label_name(id, "skip_move"@));
    lemma_move_effect(program, at, dst, src, id, m)
}

/// Copying in place: in a program whose labels are all different and that
/// holds, from the place `at` on, the code that `copy` emits for two cells
/// and a temporary, all different, a machine at that place arrives behind
/// the code; the cell at `dst` then holds what the cell at `src` held, and
/// the cell at `src` holds it still.
pub proof fn lemma_copy_in_place(
    program: Seq<InstructionView>,
    at: int,
    dst: MemoryUnit,
    src: MemoryUnit,
    temp: MemoryUnit,
    id: nat,
    m: Machine,
) -> (n: nat)
    requires
        distinct_labels(program),
        placed(program, at, copy_code(dst, src, temp, id)),
        dst < STACK_SIZE,
        src < STACK_SIZE,
        temp < STACK_SIZE,
        dst != src,
        dst != temp,
        src != temp,
        m.wf(),
        m.cursor == at,
    ensures
        arrives(program, m, n, copied(m, dst, src, temp, at + 29)),
        copied(m, dst, src, temp, at + 29).memory[dst as int] == m.memory[src as int],
        copied(m, dst, src, temp, at + 29).memory[src as int] == m.memory[src as int],
{
    let code = copy_code(dst, src, temp, id);
    assert(program[at + 6] == code[6]);
    assert(program[at + 27] == code[27]);
    assert(program[at + 18] == code[18]);
    assert(program[at + 24] == code[24]);
    lemma_resolve_distinct(program, at + 6, label_name(id, "copy"@));
    lemma_resolve_distinct(program, at + 27, label_name(id, "skip_copy"@));
    lemma_resolve_distinct(program, at + 18, label_name(id + 1, "move"@));
    lemma_resolve_distinct(program, at + 24, label_name(id + 1, "skip_move"@));
    lemma_copy_effect(program, at, dst, src, temp, id, m)
}

/// Every jump of a transfer lands in it.
pub proof fn lemma_transfer_jumps(dst: MemoryUnit, src: MemoryUnit, turn: Seq<char>, skip: Seq<char>)
    ensures
        jumps_land(transfer_code(dst, src, turn, skip)),
{
    reveal(jumps_land);
    let code = transfer_code(dst, src, turn, skip);
    lemma_defined(code, turn, 0, 2);
    lemma_defined(code, skip, 0, 8);
}

/// Every jump of the code for subtracting lands in it.
pub proof fn lemma_sub_jumps(dst: MemoryUnit, src: MemoryUnit, id: nat)
    ensures
        jumps_land(sub_code(dst, src, id)),
{
    reveal(jumps_land);
    let code = sub_code(dst, src, id);
    lemma_defined(code, label_name(id, "mem_sub"@), 0, 2);
    lemma_defined(code, label_name(id, "skip_mem_sub"@), 0, 10);
}

/// Every jump of the code for moving lands in it.
pub proof fn lemma_move_jumps(dst: MemoryUnit, src: MemoryUnit, id: nat)
    ensures
        jumps_land(move_code(dst, src, id)),
{
    let clear = seq![op(Instruction::MoveStack(dst)), op(Instruction::Clear)];
    lemma_no_jumps(clear);
    lemma_transfer_jumps(dst, src, label_name(id, "move"@), label_name(id, "skip_move"@));
    lemma_jumps_joined(
        clear,
        transfer_code(dst, src, label_name(id, "move"@), label_name(id, "skip_move"@)),
    );
}

/// Every jump of the code for copying lands in it.
pub proof fn lemma_copy_jumps(dst: MemoryUnit, src: MemoryUnit, temp: MemoryUnit, id: nat)
    ensures
        jumps_land(copy_code(dst, src, temp, id)),
{
    reveal(jumps_land);
    let code = copy_code(dst, src, temp, id);
    let b = copy_fill(dst, src, temp, id);
    let c = move_code(src, temp, id + 1);
    let d = copy_close(dst, temp, id);
    assert(code[6] == b[2]);
    assert(code[27] == d[2]);
    assert(code[18] == c[4]);
    assert(code[24] == c[10]);
    lemma_defined(code, label_name(id, "copy"@), 0, 6);
    lemma_defined(code, label_name(id, "skip_copy"@), 0, 27);
    lemma_defined(code, label_name(id + 1, "move"@), 0, 18);
    lemma_defined(code, label_name(id + 1, "skip_move"@), 0, 24);
    let a = copy_open(dst, src, id);
    assert forall|i: int| 0 <= i < code.len() implies ((#[trigger] jump_target(code[i]))
        matches Some(name) ==> resolve(code, name) is Some) by {
        if i < 4 {
            assert(code[i] == a[i]);
        } else if i < 14 {
            assert(code[i] == b[i - 4]);
        } else if i < 25 {
            assert(code[i] == c[i - 14]);
        } else {
            assert(code[i] == d[i - 25]);
        }
    }
}

} // verus!
