//! A cursor over a vector of items, shared by every stage.
use vstd::prelude::*;
use vstd::string::StringExecFns;
use crate::error::{DSAsmError, ErrorKind, failure};
use crate::text::{decimal, push_decimal, push_quoted, quoted};

verus! {

/// What a cursor needs of its items: a filler for reads past the end, a
/// faithful copy, a test for agreement and a printed form.
pub trait ProcessorInput: Sized {
    /// The item that stands for "nothing here".
    spec fn blank() -> Self;

    /// Whether two items are the same item.
    spec fn agrees(&self, other: &Self) -> bool;

    /// The item's printed form.
    spec fn text(&self) -> Seq<char>;

    /// The blank item.
    fn filler() -> (r: Self)
        ensures
            r == Self::blank(),
    ;

    /// A copy of the item.
    fn duplicate(&self) -> (r: Self)
        ensures
            r == *self,
    ;

    /// Whether the item is the same as `other`.
    fn same_as(&self, other: &Self) -> (b: bool)
        ensures
            b == self.agrees(other),
    ;

    /// The item's printed form.
    fn describe(&self) -> (s: String)
        ensures
            s@ == self.text(),
    ;
}

impl ProcessorInput for char {
    open spec fn blank() -> char {
        '\0'
    }

    open spec fn agrees(&self, other: &char) -> bool {
        *self == *other
    }

    open spec fn text(&self) -> Seq<char> {
        seq![*self]
    }

    fn filler() -> (r: char) {
        '\0'
    }

    fn duplicate(&self) -> (r: char) {
        *self
    }

    fn same_as(&self, other: &char) -> (b: bool) {
        *self == *other
    }

    fn describe(&self) -> (s: String) {
        let mut s = String::new();
        s.push(*self);
        assert(Seq::<char>::empty().push(*self) =~= seq![*self]);
        s
    }
}

/// A vector of items with a read position.
pub struct Processor<I: ProcessorInput> {
    input: Vec<I>,
    peek: usize,
}

/// The message of the error that `require` gives when the item at
/// `position` is not the wanted one.
pub open spec fn expected_message(wanted: Seq<char>, position: nat) -> Seq<char> {
    "Expected "@ + quoted(wanted) + ", peek="@ + decimal(position) + " - "@
}

impl<I: ProcessorInput> Processor<I> {
    /// The items the cursor runs over.
    pub closed spec fn items(&self) -> Seq<I> {
        self.input@
    }

    /// The read position. It may lie past the end.
    pub closed spec fn position(&self) -> nat {
        self.peek as nat
    }

    /// Whether the read position is on an item.
    pub open spec fn spec_has_peek(&self) -> bool {
        self.position() < self.items().len()
    }

    /// The item at the read position, or the blank item past the end.
    pub open spec fn current(&self) -> I {
        if self.spec_has_peek() {
            self.items()[self.position() as int]
        } else {
            I::blank()
        }
    }

    /// The cursor after one `consume`: one step further, unless it is
    /// already past the end.
    pub open spec fn advanced(&self) -> nat {
        if self.spec_has_peek() {
            self.position() + 1
        } else {
            self.position()
        }
    }

    /// Positions and lengths are machine integers.
    pub proof fn lemma_bounded(&self)
        ensures
            self.position() <= usize::MAX,
            self.items().len() <= usize::MAX,
    {
        assert(self.input.len() == self.input@.len());
    }

    /// A cursor at the first of the items `i`.
    pub fn new(i: Vec<I>) -> (p: Processor<I>)
        ensures
            p.items() == i@,
            p.position() == 0,
    {
        Processor { input: i, peek: 0 }
    }

    /// Whether the read position is on an item.
    pub fn has_peek(&self) -> (b: bool)
        ensures
            b == self.spec_has_peek(),
    {
        self.peek < self.input.len()
    }

    /// The number of items.
    pub fn len(&self) -> (n: usize)
        ensures
            n == self.items().len(),
    {
        self.input.len()
    }

    /// The item at `index`.
    pub fn at(&self, index: usize) -> (r: &I)
        requires
            index < self.items().len(),
        ensures
            *r == self.items()[index as int],
    {
        &self.input[index]
    }

    /// A copy of the item at the read position, or the blank item past the
    /// end.
    pub fn peek(&self) -> (r: I)
        ensures
            r == self.current(),
    {
        if self.has_peek() {
            self.input[self.peek].duplicate()
        } else {
            I::filler()
        }
    }

    /// Reads the item at the read position and steps over it. Past the end
    /// it reads the blank item and stays.
    pub fn consume(&mut self) -> (r: I)
        ensures
            r == old(self).current(),
            final(self).items() == old(self).items(),
            final(self).position() == old(self).advanced(),
    {
        if self.peek < self.input.len() {
            let ret = self.input[self.peek].duplicate();
            self.peek += 1;
            ret
        } else {
            I::filler()
        }
    }

    /// Whether the item at the read position is `wanted`.
    pub fn peek_equal(&self, wanted: I) -> (b: bool)
        ensures
            b == self.current().agrees(&wanted),
    {
        self.peek().same_as(&wanted)
    }

    /// Steps over the item at the read position if it is `wanted`, and says
    /// whether it was.
    pub fn tryconsume(&mut self, wanted: I) -> (b: bool)
        ensures
            b == old(self).current().agrees(&wanted),
            final(self).items() == old(self).items(),
            final(self).position() == (if b {
                old(self).advanced()
            } else {
                old(self).position()
            }),
    {
        if self.peek_equal(wanted) {
            self.consume();
            true
        } else {
            false
        }
    }

    /// Reads the item at the read position if it is `wanted`; else fails
    /// with an error of the processor that shows `wanted` and the position,
    /// and stays.
    pub fn require(&mut self, wanted: I) -> (r: Result<I, DSAsmError>)
        ensures
            final(self).items() == old(self).items(),
            old(self).current().agrees(&wanted) ==> r == Ok::<I, DSAsmError>(old(self).current())
                && final(self).position() == old(self).advanced(),
            !old(self).current().agrees(&wanted) ==> r is Err && r->Err_0@ == failure(
                ErrorKind::Processor,
                expected_message(wanted.text(), old(self).position()),
            ) && final(self).position() == old(self).position(),
    {
        let shown = wanted.describe();
        if self.peek_equal(wanted) {
            Ok(self.consume())
        } else {
            let mut message = String::from_str("Expected ");
            push_quoted(&mut message, shown.as_str());
            message.append(", peek=");
            push_decimal(&mut message, self.peek as u64);
            message.append(" - ");
            Err(DSAsmError::ProcessorError(message))
        }
    }

    /// The read position.
    pub fn get_peek(&self) -> (u: usize)
        ensures
            u == self.position(),
    {
        self.peek
    }

    /// Moves the read position to `u`, which may lie past the end.
    pub fn set_peek(&mut self, u: usize)
        ensures
            final(self).items() == old(self).items(),
            final(self).position() == u,
    {
        self.peek = u;
    }
}

} // verus!
