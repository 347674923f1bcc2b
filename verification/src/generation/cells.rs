//! Allocation of cells, and the instruction sequences that move, copy, add
//! and subtract whole cells.
use vstd::prelude::*;
use vstd::string::StringExecFns;
use crate::bytecode::Instruction;
use crate::bytecode::writing::{op, written};
use crate::error::{DSAsmError, Failure};
use crate::generation::{
    ADDRESSABLE, Cell, Failed, Generator, GeneratorState, first_unused, label_name,
    lemma_mark_plain, no_temporaries, out_of_memory, same_variables, unaddressable,
};
use crate::generation::assembly::lemma_emitted;
use crate::generation::effects::{add_code, copy_code, move_code, sub_code};
use crate::generation::emit::{addressable, label};
use crate::generation::labels::{
    lemma_add_labels, lemma_bound_raised, lemma_copy_jumps, lemma_copy_labels, lemma_jumps_joined,
    lemma_labels_joined, lemma_move_jumps, lemma_move_labels, lemma_sub_jumps, lemma_sub_labels,
    lemma_transfer_jumps,
};
use crate::interpreter::{MemoryUnit, STACK_SIZE};
use crate::tokenizer::{Token, literal, plain};

verus! {

impl GeneratorState {
    /// The first unused cell becomes `cell`; the result holds its address.
    /// Nothing changes when no cell is unused.
    pub open spec fn alloc_as(self, cell: Cell) -> Result<(GeneratorState, MemoryUnit), Failed> {
        match first_unused(self.cells, 0) {
            Some(i) => Ok((self.mark(i, cell), i as MemoryUnit)),
            None => Err((self, out_of_memory())),
        }
    }

    /// As `alloc_as`, for a cell that the code is to address: nothing
    /// changes, and the result is a failure, when the first unused cell
    /// lies where no literal can address it.
    pub open spec fn take(self, cell: Cell) -> Result<(GeneratorState, MemoryUnit), Failed> {
        match first_unused(self.cells, 0) {
            Some(i) => if i < ADDRESSABLE {
                Ok((self.mark(i, cell), i as MemoryUnit))
            } else {
                Err((self, unaddressable()))
            },
            None => Err((self, out_of_memory())),
        }
    }

    /// The cell at `index` becomes unused; the code clears it if it can
    /// address it, and has never written to it if it cannot.
    pub open spec fn release(self, index: int) -> GeneratorState {
        if index < ADDRESSABLE {
            self.free(index as MemoryUnit)
        } else {
            self.mark(index, Cell::Unused)
        }
    }

    /// `^loc ~`: the cell at `loc` becomes zero.
    pub open spec fn clear(self, loc: MemoryUnit) -> GeneratorState {
        self.goto(loc).push(plain(Token::Tilde))
    }

    /// The cell at `addr` becomes unused, and the code clears it.
    pub open spec fn free(self, addr: MemoryUnit) -> GeneratorState {
        self.mark(addr as int, Cell::Unused).clear(addr)
    }

    /// Every temporary below index `n` is freed, the highest first.
    pub open spec fn free_temps_below(self, n: int) -> GeneratorState
        decreases n,
    {
        if n <= 0 {
            self
        } else if self.cells[n - 1] == Cell::Temporary {
            self.release(n - 1).free_temps_below(n - 1)
        } else {
            self.free_temps_below(n - 1)
        }
    }

    /// Every temporary is freed, the highest first.
    pub open spec fn free_temps(self) -> GeneratorState {
        self.free_temps_below(STACK_SIZE as int)
    }

    /// The code that empties the cell at `src` into the cell at `dst`, which
    /// it clears first: the loop runs while `src` is not zero and is skipped
    /// when it is zero from the start.
    pub open spec fn mov(self, dst: MemoryUnit, src: MemoryUnit) -> GeneratorState {
        let id = self.labels;
        let turn = label_name(id, "move"@);
        let skip = label_name(id, "skip_move"@);
        self.clear(dst).fresh().goto(src).jze(skip).create_label(turn).goto(dst).add(1).goto(
            src,
        ).sub(1).jnze(turn).create_label(skip)
    }

    /// The code that copies the cell at `src` into the cell at `dst` by way
    /// of the cell at `temp`, which is a temporary while the code uses it
    /// and is freed again.
    pub open spec fn copy_through(self, dst: MemoryUnit, src: MemoryUnit, temp: MemoryUnit)
        -> GeneratorState {
        let id = self.labels;
        let turn = label_name(id, "copy"@);
        let skip = label_name(id, "skip_copy"@);
        self.clear(dst).fresh().goto(src).jze(skip).mark(temp as int, Cell::Temporary).clear(
            temp,
        ).create_label(turn).goto(dst).add(1).goto(temp).add(1).goto(src).sub(1).jnze(turn).mov(
            src,
            temp,
        ).free(temp).create_label(skip).goto(dst)
    }

    /// What `copy` has emitted when it looks for its temporary: `dst` is
    /// cleared, and the rest is skipped when `src` holds zero.
    pub open spec fn copy_started(self, dst: MemoryUnit, src: MemoryUnit) -> GeneratorState {
        self.clear(dst).fresh().goto(src).jze(label_name(self.labels, "skip_copy"@))
    }

    /// The code that copies the cell at `src` into the cell at `dst` by way
    /// of the first unused cell. It fails, with its start emitted, when no
    /// cell is unused or the first unused cell cannot be addressed.
    pub open spec fn copy(self, dst: MemoryUnit, src: MemoryUnit) -> Result<
        GeneratorState,
        Failed,
    > {
        match first_unused(self.cells, 0) {
            None => Err((self.copy_started(dst, src), out_of_memory())),
            Some(temp) => if temp < ADDRESSABLE {
                Ok(self.copy_through(dst, src, temp as MemoryUnit))
            } else {
                Err((self.copy_started(dst, src), unaddressable()))
            },
        }
    }

    /// The code that adds the cell at `src` to the cell at `dst` and leaves
    /// `src` zero.
    pub open spec fn mem_add(self, dst: MemoryUnit, src: MemoryUnit) -> GeneratorState {
        let id = self.labels;
        let turn = label_name(id, "mem_add"@);
        let skip = label_name(id, "skip_mem_add"@);
        self.fresh().goto(src).jze(skip).create_label(turn).goto(dst).add(1).goto(src).sub(
            1,
        ).jnze(turn).create_label(skip)
    }

    /// The code that takes one from the cells at `dst` and at `src` in turn
    /// until one of them is zero.
    pub open spec fn mem_sub(self, dst: MemoryUnit, src: MemoryUnit) -> GeneratorState {
        let id = self.labels;
        let turn = label_name(id, "mem_sub"@);
        let skip = label_name(id, "skip_mem_sub"@);
        self.fresh().goto(src).jze(skip).create_label(turn).goto(dst).jze(skip).sub(1).goto(
            src,
        ).sub(1).goto(src).jnze(turn).create_label(skip)
    }

    /// `^l ' r`: the cell at `l` becomes one when it is greater than the cell
    /// at `r`, else two.
    pub open spec fn compare(self, l: MemoryUnit, r: MemoryUnit) -> GeneratorState {
        self.goto(l).push(plain(Token::Apostrophe)).push(literal(r))
    }

    /// `^l | r`: the cell at `r` is ored into the cell at `l`.
    pub open spec fn or(self, l: MemoryUnit, r: MemoryUnit) -> GeneratorState {
        self.goto(l).push(plain(Token::Pipe)).push(literal(r))
    }

    /// `!!`: the current cell becomes one unless it is zero.
    pub open spec fn reduce(self) -> GeneratorState {
        self.push(plain(Token::Exclamation)).push(plain(Token::Exclamation))
    }
}

/// Freeing the temporaries below `n` leaves no temporary below `n`, leaves
/// every other cell as it is, and keeps the state well-formed.
pub proof fn lemma_free_temps_below(s: GeneratorState, n: int)
    requires
        s.wf(),
        0 <= n <= STACK_SIZE,
    ensures
        s.free_temps_below(n).wf(),
        s.free_temps_below(n).labels == s.labels,
        forall|i: int|
            0 <= i < STACK_SIZE ==> #[trigger] s.free_temps_below(n).cells[i] == (if i < n
                && s.cells[i] == Cell::Temporary {
                Cell::Unused
            } else {
                s.cells[i]
            }),
    decreases n,
{
    if n > 0 {
        if s.cells[n - 1] == Cell::Temporary {
            let freed = s.release(n - 1);
            lemma_mark_plain(s, n - 1, Cell::Unused);
            lemma_free_temps_below(freed, n - 1);
        } else {
            lemma_free_temps_below(s, n - 1);
        }
    }
}

/// After `free_temps` no cell holds a temporary and the variables are where
/// they were.
pub proof fn lemma_free_temps(s: GeneratorState)
    requires
        s.wf(),
    ensures
        s.free_temps().wf(),
        no_temporaries(s.free_temps().cells),
        same_variables(s.cells, s.free_temps().cells),
{
    lemma_free_temps_below(s, STACK_SIZE as int);
}

impl Generator {
    /// Hands out the next label identity.
    pub(crate) fn generate_id(&mut self) -> (id: u64)
        requires
            old(self).wf(),
            old(self)@.labels < old(self)@.output.len(),
        ensures
            id == old(self)@.labels,
            final(self).keeps(old(self), old(self)@.fresh()),
    {
        let id = self.labels;
        assert(self.labels < self.output@.len());
        assert(self.output@.len() == self.output.len());
        self.labels = self.labels + 1;
        proof {
            if old(self)@.tidy() {
                lemma_bound_raised(old(self)@.program(), old(self)@.labels, self@.labels);
            }
        }
        id
    }

    /// The index of the first unused cell.
    fn first_free(&self) -> (r: Option<usize>)
        requires
            self.wf(),
        ensures
            match r {
                Some(i) => first_unused(self@.cells, 0) == Some(i as int) && i < STACK_SIZE
                    && self@.cells[i as int] == Cell::Unused,
                None => first_unused(self@.cells, 0) is None,
            },
    {
        let mut i: usize = 0;
        while i < STACK_SIZE
            invariant
                i <= STACK_SIZE,
                self.wf(),
                first_unused(self@.cells, 0) == first_unused(self@.cells, i as int),
            decreases STACK_SIZE - i,
        {
            if self.stack[i].is_unused() {
                return Some(i);
            }
            i += 1;
        }
        None
    }

    /// Marks the first unused cell as `cell`.
    pub(crate) fn alloc_as(&mut self, cell: Cell) -> (r: Result<MemoryUnit, DSAsmError>)
        requires
            old(self).wf(),
            !(cell is Variable),
        ensures
            final(self).allotted(old(self), cell, r, old(self)@.alloc_as(cell)),
    {
        match self.first_free() {
            Some(i) => {
                proof {
                    lemma_mark_plain(self@, i as int, cell);
                }
                self.stack.set(i, cell);
                Ok(i as MemoryUnit)
            },
            None => Err(DSAsmError::CompilerError(String::from_str("Not enough memory!"))),
        }
    }

    /// Marks the first unused cell as `cell`, for the code to address it:
    /// fails, and changes nothing, when no cell is unused or the first
    /// unused cell lies where no literal can address it.
    pub(crate) fn take(&mut self, cell: Cell) -> (r: Result<MemoryUnit, DSAsmError>)
        requires
            old(self).wf(),
            !(cell is Variable),
        ensures
            final(self).allotted(old(self), cell, r, old(self)@.take(cell)),
            r matches Ok(address) ==> addressable(address),
    {
        match self.first_free() {
            Some(i) => {
                if i < ADDRESSABLE {
                    proof {
                        lemma_mark_plain(self@, i as int, cell);
                    }
                    self.stack.set(i, cell);
                    Ok(i as MemoryUnit)
                } else {
                    Err(
                        DSAsmError::CompilerError(
                            String::from_str("Not enough addressable memory!"),
                        ),
                    )
                }
            },
            None => Err(DSAsmError::CompilerError(String::from_str("Not enough memory!"))),
        }
    }

    /// Scans the cells from the first on, marks the first unused one as
    /// used and hands out its index. Fails, and changes nothing, when no
    /// cell is unused.
    pub fn allocate(&mut self) -> (r: Result<MemoryUnit, DSAsmError>)
        requires
            old(self).wf(),
        ensures
            final(self).allotted(old(self), Cell::Used, r, old(self)@.alloc_as(Cell::Used)),
    {
        self.alloc_as(Cell::Used)
    }

    /// As `allocate`, marking the cell as a temporary.
    pub fn alloc_temp(&mut self) -> (r: Result<MemoryUnit, DSAsmError>)
        requires
            old(self).wf(),
        ensures
            final(self).allotted(
                old(self),
                Cell::Temporary,
                r,
                old(self)@.alloc_as(Cell::Temporary),
            ),
    {
        self.alloc_as(Cell::Temporary)
    }

    /// As `allocate`, marking the cell as the parameter `id`.
    pub fn alloc_param(&mut self, id: u64) -> (r: Result<MemoryUnit, DSAsmError>)
        requires
            old(self).wf(),
        ensures
            final(self).allotted(
                old(self),
                Cell::Parameter(id),
                r,
                old(self)@.alloc_as(Cell::Parameter(id)),
            ),
    {
        self.alloc_as(Cell::Parameter(id))
    }

    /// Marks the cell at `addr` as unused and emits the code that clears it.
    pub fn free(&mut self, addr: MemoryUnit)
        requires
            old(self).wf(),
            addressable(addr),
        ensures
            final(self).emits(
                old(self),
                old(self)@.free(addr),
                seq![op(Instruction::MoveStack(addr)), op(Instruction::Clear)],
            ),
            final(self).keeps(old(self), old(self)@.free(addr)),
    {
        proof {
            lemma_mark_plain(self@, addr as int, Cell::Unused);
        }
        self.stack.set(addr as usize, Cell::Unused);
        self.clear(addr);
    }

    /// Emits the code that sets the cell at `loc` to zero.
    pub fn clear(&mut self, loc: MemoryUnit)
        requires
            old(self).wf(),
            addressable(loc),
        ensures
            final(self).emits(
                old(self),
                old(self)@.clear(loc),
                seq![op(Instruction::MoveStack(loc)), op(Instruction::Clear)],
            ),
            final(self).keeps(old(self), old(self)@.clear(loc)),
    {
        self.goto(loc);
        let ghost moved = self@;
        self.push(Token::Tilde);
        proof {
            if old(self)@.reads() {
                assert(self@.output =~= moved.output + written(op(Instruction::Clear)));
                lemma_emitted(moved, self@, op(Instruction::Clear));
                assert(self@.program() =~= old(self)@.program() + seq![
                    op(Instruction::MoveStack(loc)),
                    op(Instruction::Clear),
                ]);
            }
        }
    }

    /// Emits the code that empties the cell at `src` into the cell at `dst`.
    pub fn mov(&mut self, dst: MemoryUnit, src: MemoryUnit)
        requires
            old(self).wf(),
            addressable(dst),
            addressable(src),
        ensures
            final(self).emits(
                old(self),
                old(self)@.mov(dst, src),
                move_code(dst, src, old(self)@.labels),
            ),
            final(self).keeps(old(self), old(self)@.mov(dst, src)),
            final(self)@.cells == old(self)@.cells,
            final(self)@.labels == old(self)@.labels + 1,
    {
        self.clear(dst);
        let id = self.generate_id();
        let turn = label(id, "move");
        let skip = label(id, "skip_move");
        self.goto(src);
        self.jze(skip.as_str());

        self.create_label(turn.as_str());
        self.goto(dst);
        self.add(1);
        self.goto(src);
        self.sub(1);
        self.jnze(turn.as_str());
        self.create_label(skip.as_str());
        proof {
            if old(self)@.reads() {
                let code = move_code(dst, src, id as nat);
                assert(self@.program() =~= old(self)@.program() + code);
                if old(self)@.tidy() {
                    lemma_move_labels(dst, src, id as nat);
                    lemma_labels_joined(old(self)@.program(), code, id as nat, (id + 1) as nat);
                    lemma_move_jumps(dst, src, id as nat);
                    lemma_jumps_joined(old(self)@.program(), code);
                }
            }
        }
    }

    /// Emits the code that copies the cell at `src` into the cell at `dst`.
    /// The code needs a temporary for its loop; the call fails, with the
    /// start of the code emitted, when no cell is left for it or the first
    /// cell that is left cannot be addressed.
    #[verifier::rlimit(40)]
    pub fn copy(&mut self, dst: MemoryUnit, src: MemoryUnit) -> (r: Result<(), DSAsmError>)
        requires
            old(self).wf(),
            addressable(dst),
            addressable(src),
        ensures
            final(self).wf(),
            final(self).nodes() == old(self).nodes(),
            final(self).position() == old(self).position(),
            same_variables(old(self)@.cells, final(self)@.cells),
            r is Ok && old(self)@.reads() ==> final(self)@.reads() && final(self)@.program()
                == old(self)@.program() + copy_code(
                dst,
                src,
                first_unused(old(self)@.cells, 0)->Some_0 as MemoryUnit,
                old(self)@.labels,
            ),
            r is Ok && old(self)@.tidy() ==> final(self)@.tidy(),
            match r {
                Ok(_) => old(self)@.copy(dst, src) == Ok::<GeneratorState, Failed>(final(self)@)
                    && final(self)@.cells == old(self)@.cells,
                Err(e) => old(self)@.copy(dst, src) == Err::<GeneratorState, Failed>((final(self)@, e@)),
            },
    {
        self.clear(dst);
        let id = self.generate_id();
        let skip = label(id, "skip_copy");
        self.goto(src);
        self.jze(skip.as_str());

        let temporary = self.take(Cell::Temporary)?;
        let ghost marked = self@.cells;
        assert(marked == old(self)@.cells.update(temporary as int, Cell::Temporary));
        self.clear(temporary);

        let turn = label(id, "copy");
        self.create_label(turn.as_str());

        self.goto(dst);
        self.add(1);

        self.goto(temporary);
        self.add(1);

        self.goto(src);
        self.sub(1);

        self.jnze(turn.as_str());

        self.mov(src, temporary);
        assert(self@.cells == marked);

        self.free(temporary);
        assert(self@.cells == marked.update(temporary as int, Cell::Unused));

        self.create_label(skip.as_str());

        self.goto(dst);
        assert(self@.cells =~= old(self)@.cells);
        proof {
            if old(self)@.reads() {
                let code = copy_code(dst, src, temporary, id as nat);
                assert(self@.program() =~= old(self)@.program() + code);
                if old(self)@.tidy() {
                    assert(old(self)@.labels == id);
                    assert(self@.labels == id + 2);
                    lemma_copy_labels(dst, src, temporary, id as nat);
                    lemma_labels_joined(old(self)@.program(), code, id as nat, (id + 2) as nat);
                    lemma_copy_jumps(dst, src, temporary, id as nat);
                    lemma_jumps_joined(old(self)@.program(), code);
                }
            }
        }
        Ok(())
    }

    /// Frees every temporary, the one at the highest address first. A
    /// temporary that no literal can address becomes unused without code:
    /// the code has never written to it.
    pub fn free_temps(&mut self)
        requires
            old(self).wf(),
        ensures
            final(self).keeps(old(self), old(self)@.free_temps()),
            no_temporaries(final(self)@.cells),
            same_variables(old(self)@.cells, final(self)@.cells),
    {
        let mut i: usize = STACK_SIZE;
        while i > 0
            invariant
                i <= STACK_SIZE,
                self.wf(),
                self.nodes() == old(self).nodes(),
                self.position() == old(self).position(),
                old(self)@.reads() ==> self@.reads(),
                old(self)@.tidy() ==> self@.tidy(),
                old(self)@.reads() && old(self)@.tracks() ==> self@.tracks(),
                old(self)@.free_temps() == self@.free_temps_below(i as int),
            decreases i,
        {
            i -= 1;
            if self.stack[i].is_temp() {
                if i < ADDRESSABLE {
                    self.free(i as MemoryUnit);
                } else {
                    proof {
                        lemma_mark_plain(self@, i as int, Cell::Unused);
                    }
                    self.stack.set(i, Cell::Unused);
                }
            }
        }
        proof {
            lemma_free_temps(old(self)@);
        }
    }

    /// Emits the code that adds the cell at `src` to the cell at `dst`.
    pub fn mem_add(&mut self, dst: MemoryUnit, src: MemoryUnit)
        requires
            old(self).wf(),
            addressable(dst),
            addressable(src),
        ensures
            final(self).emits(
                old(self),
                old(self)@.mem_add(dst, src),
                add_code(dst, src, old(self)@.labels),
            ),
            final(self).keeps(old(self), old(self)@.mem_add(dst, src)),
            final(self)@.cells == old(self)@.cells,
            final(self)@.labels == old(self)@.labels + 1,
    {
        self.goto(src);
        let id = self.generate_id();
        let turn = label(id, "mem_add");
        let skip = label(id, "skip_mem_add");
        self.jze(skip.as_str());
        self.create_label(turn.as_str());
        self.goto(dst);
        self.add(1);
        self.goto(src);
        self.sub(1);
        self.jnze(turn.as_str());
        self.create_label(skip.as_str());
        proof {
            if old(self)@.reads() {
                let code = add_code(dst, src, id as nat);
                assert(self@.program() =~= old(self)@.program() + code);
                if old(self)@.tidy() {
                    lemma_add_labels(dst, src, id as nat);
                    lemma_labels_joined(old(self)@.program(), code, id as nat, (id + 1) as nat);
                    lemma_transfer_jumps(
                        dst,
                        src,
                        label_name(id as nat, "mem_add"@),
                        label_name(id as nat, "skip_mem_add"@),
                    );
                    lemma_jumps_joined(old(self)@.program(), code);
                }
            }
        }
    }

    /// Emits the code that subtracts the cell at `src` from the cell at
    /// `dst`, stopping at zero.
    pub fn mem_sub(&mut self, dst: MemoryUnit, src: MemoryUnit)
        requires
            old(self).wf(),
            addressable(dst),
            addressable(src),
        ensures
            final(self).emits(
                old(self),
                old(self)@.mem_sub(dst, src),
                sub_code(dst, src, old(self)@.labels),
            ),
            final(self).keeps(old(self), old(self)@.mem_sub(dst, src)),
            final(self)@.cells == old(self)@.cells,
            final(self)@.labels == old(self)@.labels + 1,
    {
        self.goto(src);
        let id = self.generate_id();
        let turn = label(id, "mem_sub");
        let skip = label(id, "skip_mem_sub");
        self.jze(skip.as_str());
        self.create_label(turn.as_str());
        self.goto(dst);
        self.jze(skip.as_str());
        self.sub(1);
        self.goto(src);
        self.sub(1);
        self.goto(src);
        self.jnze(turn.as_str());
        self.create_label(skip.as_str());
        proof {
            if old(self)@.reads() {
                let code = sub_code(dst, src, id as nat);
                assert(self@.program() =~= old(self)@.program() + code);
                if old(self)@.tidy() {
                    lemma_sub_labels(dst, src, id as nat);
                    lemma_labels_joined(old(self)@.program(), code, id as nat, (id + 1) as nat);
                    lemma_sub_jumps(dst, src, id as nat);
                    lemma_jumps_joined(old(self)@.program(), code);
                }
            }
        }
    }

    /// Emits the comparison of the cell at `l` with the cell at `r`.
    pub(crate) fn compare(&mut self, l: MemoryUnit, r: MemoryUnit)
        requires
            old(self).wf(),
            addressable(l),
            addressable(r),
        ensures
            final(self).emits(
                old(self),
                old(self)@.compare(l, r),
                seq![op(Instruction::MoveStack(l)), op(Instruction::Compare(r))],
            ),
            final(self).keeps(old(self), old(self)@.compare(l, r)),
    {
        self.goto(l);
        let ghost moved = self@;
        self.push(Token::Apostrophe);
        self.push(Token::Literal(r as u8));
        proof {
            if old(self)@.reads() {
                assert(self@.output =~= moved.output + written(op(Instruction::Compare(r))));
                lemma_emitted(moved, self@, op(Instruction::Compare(r)));
                assert(self@.program() =~= old(self)@.program() + seq![
                    op(Instruction::MoveStack(l)),
                    op(Instruction::Compare(r)),
                ]);
            }
        }
    }

    /// Emits the comparison of the cell at `l` with the cell at `r`: the
    /// cell at `l` becomes one when it is the greater, else two.
    pub fn cmp(&mut self, l: MemoryUnit, r: MemoryUnit)
        requires
            old(self).wf(),
            addressable(l),
            addressable(r),
        ensures
            final(self).emits(
                old(self),
                old(self)@.compare(l, r),
                seq![op(Instruction::MoveStack(l)), op(Instruction::Compare(r))],
            ),
            final(self).keeps(old(self), old(self)@.compare(l, r)),
    {
        self.compare(l, r);
    }

    /// Emits the code that ors the cell at `r` into the cell at `l`.
    pub fn or(&mut self, l: MemoryUnit, r: MemoryUnit)
        requires
            old(self).wf(),
            addressable(l),
            addressable(r),
        ensures
            final(self).emits(
                old(self),
                old(self)@.or(l, r),
                seq![op(Instruction::MoveStack(l)), op(Instruction::Or(r))],
            ),
            final(self).keeps(old(self), old(self)@.or(l, r)),
    {
        self.goto(l);
        let ghost moved = self@;
        self.push(Token::Pipe);
        self.push(Token::Literal(r as u8));
        proof {
            if old(self)@.reads() {
                assert(self@.output =~= moved.output + written(op(Instruction::Or(r))));
                lemma_emitted(moved, self@, op(Instruction::Or(r)));
                assert(self@.program() =~= old(self)@.program() + seq![
                    op(Instruction::MoveStack(l)),
                    op(Instruction::Or(r)),
                ]);
            }
        }
    }

    /// Emits the code that turns the current cell into one unless it is
    /// zero.
    pub fn reduce(&mut self)
        requires
            old(self).wf(),
        ensures
            final(self).emits(
                old(self),
                old(self)@.reduce(),
                seq![op(Instruction::Invert), op(Instruction::Invert)],
            ),
            final(self).keeps(old(self), old(self)@.reduce()),
    {
        self.invert();
        self.invert();
        proof {
            if old(self)@.reads() {
                assert(self@.program() =~= old(self)@.program() + seq![
                    op(Instruction::Invert),
                    op(Instruction::Invert),
                ]);
            }
        }
    }
}

} // verus!
