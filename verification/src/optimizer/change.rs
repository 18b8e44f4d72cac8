//! The edit that a pass asks for at one window of the program.

use vstd::prelude::*;

use crate::program::Instruction;
use crate::utils::InsertOrPush;

verus! {

/// What to do with the window of instructions that a pass has just looked at.
#[derive(Debug)]
pub enum Change {
    /// Leave the window as it is.
    Ignore,
    /// Delete the window.
    Remove,
    /// Put these instructions in the window's place.
    Replace(Vec<Instruction>),
}

/// A [`Change`] as a mathematical value.
pub enum Rewrite {
    Ignore,
    Remove,
    Replace(Seq<Instruction>),
}

/// `ops` with the `size` instructions from position `at` on replaced by `with`.
pub open spec fn splice(
    ops: Seq<Instruction>,
    at: int,
    size: int,
    with: Seq<Instruction>,
) -> Seq<Instruction> {
    ops.subrange(0, at) + with + ops.subrange(at + size, ops.len() as int)
}

impl Rewrite {
    /// Whether the edit does anything.
    pub open spec fn edits(self) -> bool {
        !(self is Ignore)
    }

    /// What an edit puts in the window's place.
    pub open spec fn replacement(self) -> Seq<Instruction> {
        match self {
            Rewrite::Replace(with) => with,
            _ => Seq::empty(),
        }
    }

    /// Whether applying the edit to a window of `size` instructions leaves
    /// the program shorter.
    pub open spec fn shrinks(self, size: nat) -> bool {
        self.edits() ==> self.replacement().len() < size
    }

    /// The program after the edit at the window of `size` instructions that
    /// starts at `at`.
    pub open spec fn apply(self, ops: Seq<Instruction>, at: int, size: int) -> Seq<Instruction> {
        if self.edits() {
            splice(ops, at, size, self.replacement())
        } else {
            ops
        }
    }
}

impl View for Change {
    type V = Rewrite;

    open spec fn view(&self) -> Rewrite {
        match self {
            Change::Ignore => Rewrite::Ignore,
            Change::Remove => Rewrite::Remove,
            Change::Replace(with) => Rewrite::Replace(with@),
        }
    }
}

impl Default for Change {
    fn default() -> (c: Change)
        ensures
            c@ == Rewrite::Ignore,
    {
        Change::Ignore
    }
}

/// Deletes the `size` instructions from position `at` on.
fn remove_window(ops: &mut Vec<Instruction>, at: usize, size: usize)
    requires
        at + size <= old(ops)@.len(),
    ensures
        final(ops)@ == splice(old(ops)@, at as int, size as int, Seq::empty()),
{
    let mut removed: usize = 0;
    while removed < size
        invariant
            removed <= size,
            at + size <= old(ops)@.len(),
            ops@ == splice(old(ops)@, at as int, removed as int, Seq::empty()),
        decreases size - removed,
    {
        ops.remove(at);
        removed += 1;
        assert(ops@ =~= splice(old(ops)@, at as int, removed as int, Seq::empty()));
    }
}

impl Change {
    /// Applies the edit to the window of `size` instructions that starts at
    /// `i`. Returns whether the program was edited, and by how much the scan
    /// position moves back, which is always 0: after an edit the scan looks
    /// at the same position again.
    pub fn apply(self, ops: &mut Vec<Instruction>, i: usize, size: usize) -> (r: (bool, usize))
        requires
            self@.edits() ==> i + size <= old(ops)@.len(),
        ensures
            final(ops)@ == self@.apply(old(ops)@, i as int, size as int),
            r.0 == self@.edits(),
            r.1 == 0,
    {
        match self {
            Change::Remove => {
                remove_window(ops, i, size);
                (true, 0)
            },
            Change::Replace(instructions) => {
                remove_window(ops, i, size);
                let ghost gap = ops@;
                let mut left: usize = instructions.len();
                while left > 0
                    invariant
                        left <= instructions@.len(),
                        i <= gap.len(),
                        ops@ == gap.subrange(0, i as int) + instructions@.subrange(
                            left as int,
                            instructions@.len() as int,
                        ) + gap.subrange(i as int, gap.len() as int),
                    decreases left,
                {
                    left -= 1;
                    ops.insert_or_push(i, instructions[left]);
                    assert(ops@ =~= gap.subrange(0, i as int) + instructions@.subrange(
                        left as int,
                        instructions@.len() as int,
                    ) + gap.subrange(i as int, gap.len() as int));
                }
                assert(ops@ =~= splice(old(ops)@, i as int, size as int, instructions@));
                (true, 0)
            },
            Change::Ignore => (false, 0),
        }
    }
}

} // verus!
