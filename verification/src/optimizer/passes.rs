//! The passes that the optimizer runs.

use vstd::prelude::*;

use crate::optimizer::change::{Change, Rewrite};
use crate::optimizer::PeepholePass;
use crate::program::Instruction;

verus! {

/// What two adjacent instructions become. Two of the same kind merge into
/// one whose magnitude is the wrapping sum. Two opposite ones on the same
/// axis cancel: equal magnitudes leave nothing, unequal ones leave the
/// larger one's kind with the difference. Any other pair stays.
pub open spec fn combine(first: Instruction, second: Instruction) -> Rewrite {
    match (first, second) {
        (Instruction::Increment(a), Instruction::Increment(b)) => Rewrite::Replace(
            seq![Instruction::Increment(a.wrapping_add(b))],
        ),
        (Instruction::Decrement(a), Instruction::Decrement(b)) => Rewrite::Replace(
            seq![Instruction::Decrement(a.wrapping_add(b))],
        ),
        (Instruction::Increment(a), Instruction::Decrement(b)) => if a == b {
            Rewrite::Remove
        } else if a > b {
            Rewrite::Replace(seq![Instruction::Increment((a - b) as u8)])
        } else {
            Rewrite::Replace(seq![Instruction::Decrement((b - a) as u8)])
        },
        (Instruction::Decrement(a), Instruction::Increment(b)) => if a == b {
            Rewrite::Remove
        } else if a > b {
            Rewrite::Replace(seq![Instruction::Decrement((a - b) as u8)])
        } else {
            Rewrite::Replace(seq![Instruction::Increment((b - a) as u8)])
        },
        (Instruction::MoveLeft(a), Instruction::MoveLeft(b)) => Rewrite::Replace(
            seq![Instruction::MoveLeft(a.wrapping_add(b))],
        ),
        (Instruction::MoveRight(a), Instruction::MoveRight(b)) => Rewrite::Replace(
            seq![Instruction::MoveRight(a.wrapping_add(b))],
        ),
        (Instruction::MoveRight(a), Instruction::MoveLeft(b)) => if a == b {
            Rewrite::Remove
        } else if a > b {
            Rewrite::Replace(seq![Instruction::MoveRight((a - b) as usize)])
        } else {
            Rewrite::Replace(seq![Instruction::MoveLeft((b - a) as usize)])
        },
        (Instruction::MoveLeft(a), Instruction::MoveRight(b)) => if a == b {
            Rewrite::Remove
        } else if a > b {
            Rewrite::Replace(seq![Instruction::MoveLeft((a - b) as usize)])
        } else {
            Rewrite::Replace(seq![Instruction::MoveRight((b - a) as usize)])
        },
        _ => Rewrite::Ignore,
    }
}

/// A single instruction as a replacement.
fn replace_with(instruction: Instruction) -> (c: Change)
    ensures
        c@ == Rewrite::Replace(seq![instruction]),
{
    let mut with: Vec<Instruction> = Vec::new();
    with.push(instruction);
    assert(with@ =~= seq![instruction]);
    Change::Replace(with)
}

/// The pass that merges and cancels adjacent arithmetic and adjacent
/// movement; see [`combine`].
#[derive(Clone, Copy, Debug, Default)]
pub struct CombineInstPass;

impl PeepholePass for CombineInstPass {
    const SIZE: usize = 2;

    open spec fn rule(&self, window: Seq<Instruction>) -> Rewrite {
        if window.len() == 2 {
            combine(window[0], window[1])
        } else {
            Rewrite::Ignore
        }
    }

    fn run_pass(&self, window: &[Instruction]) -> (change: Change) {
        match (window[0], window[1]) {
            (Instruction::Increment(a), Instruction::Increment(b)) => replace_with(
                Instruction::Increment(a.wrapping_add(b)),
            ),
            (Instruction::Decrement(a), Instruction::Decrement(b)) => replace_with(
                Instruction::Decrement(a.wrapping_add(b)),
            ),
            (Instruction::Increment(a), Instruction::Decrement(b)) => if a == b {
                Change::Remove
            } else if a > b {
                replace_with(Instruction::Increment(a - b))
            } else {
                replace_with(Instruction::Decrement(b - a))
            },
            (Instruction::Decrement(a), Instruction::Increment(b)) => if a == b {
                Change::Remove
            } else if a > b {
                replace_with(Instruction::Decrement(a - b))
            } else {
                replace_with(Instruction::Increment(b - a))
            },
            (Instruction::MoveLeft(a), Instruction::MoveLeft(b)) => replace_with(
                Instruction::MoveLeft(a.wrapping_add(b)),
            ),
            (Instruction::MoveRight(a), Instruction::MoveRight(b)) => replace_with(
                Instruction::MoveRight(a.wrapping_add(b)),
            ),
            (Instruction::MoveRight(a), Instruction::MoveLeft(b)) => if a == b {
                Change::Remove
            } else if a > b {
                replace_with(Instruction::MoveRight(a - b))
            } else {
                replace_with(Instruction::MoveLeft(b - a))
            },
            (Instruction::MoveLeft(a), Instruction::MoveRight(b)) => if a == b {
                Change::Remove
            } else if a > b {
                replace_with(Instruction::MoveLeft(a - b))
            } else {
                replace_with(Instruction::MoveRight(b - a))
            },
            _ => Change::Ignore,
        }
    }
}


/// The combining pass looks at two instructions at a time.
pub proof fn lemma_combine_window()
    ensures
        <CombineInstPass as PeepholePass>::SIZE == 2,
{
}

} // verus!
