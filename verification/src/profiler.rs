//! Optional instrumentation: how often each category of instruction ran.

use vstd::prelude::*;

use crate::program::{
    Instruction, SYM_CLOSE, SYM_INCREMENT, SYM_OPEN, SYM_READ, SYM_RIGHT, SYM_WRITE,
};

verus! {

/// Counters per category of instruction. Increments and decrements count as
/// arithmetic, moves in either direction as movement. A counter that has
/// reached `u64::MAX` stays there.
#[derive(Clone, Copy, Debug, PartialEq, Eq, Structural)]
pub struct Profiler {
    pub add: u64,
    pub mov: u64,
    pub jr: u64,
    pub jl: u64,
    pub inp: u64,
    pub out: u64,
}

/// `count` plus one, held at `u64::MAX`.
pub open spec fn bumped(count: u64) -> u64 {
    if count < u64::MAX {
        (count + 1) as u64
    } else {
        count
    }
}

fn bump(count: &mut u64)
    ensures
        *final(count) == bumped(*old(count)),
{
    if *count < u64::MAX {
        *count = *count + 1;
    }
}

impl Profiler {
    /// The counters after one more execution of `instruction`.
    pub open spec fn tallied(self, instruction: Instruction) -> Profiler {
        match instruction {
            Instruction::Increment(_) | Instruction::Decrement(_) => Profiler {
                add: bumped(self.add),
                ..self
            },
            Instruction::MoveLeft(_) | Instruction::MoveRight(_) => Profiler {
                mov: bumped(self.mov),
                ..self
            },
            Instruction::JumpIfZero => Profiler { jr: bumped(self.jr), ..self },
            Instruction::JumpIfNotZero => Profiler { jl: bumped(self.jl), ..self },
            Instruction::Read => Profiler { inp: bumped(self.inp), ..self },
            Instruction::Write => Profiler { out: bumped(self.out), ..self },
        }
    }

    /// All counters at zero.
    pub fn new() -> (p: Profiler)
        ensures
            p == (Profiler { add: 0, mov: 0, jr: 0, jl: 0, inp: 0, out: 0 }),
    {
        Profiler { add: 0, mov: 0, jr: 0, jl: 0, inp: 0, out: 0 }
    }

    /// Arithmetic instructions run.
    pub fn add(&self) -> (count: &u64)
        ensures
            *count == self.add,
    {
        &self.add
    }

    pub fn add_mut(&mut self) -> (count: &mut u64)
        ensures
            *count == old(self).add,
            *final(self) == (Profiler { add: *final(count), ..*old(self) }),
    {
        &mut self.add
    }

    /// Movement instructions run.
    pub fn mov(&self) -> (count: &u64)
        ensures
            *count == self.mov,
    {
        &self.mov
    }

    pub fn mov_mut(&mut self) -> (count: &mut u64)
        ensures
            *count == old(self).mov,
            *final(self) == (Profiler { mov: *final(count), ..*old(self) }),
    {
        &mut self.mov
    }

    /// Loop openings run.
    pub fn jr(&self) -> (count: &u64)
        ensures
            *count == self.jr,
    {
        &self.jr
    }

    pub fn jr_mut(&mut self) -> (count: &mut u64)
        ensures
            *count == old(self).jr,
            *final(self) == (Profiler { jr: *final(count), ..*old(self) }),
    {
        &mut self.jr
    }

    /// Loop closings run.
    pub fn jl(&self) -> (count: &u64)
        ensures
            *count == self.jl,
    {
        &self.jl
    }

    pub fn jl_mut(&mut self) -> (count: &mut u64)
        ensures
            *count == old(self).jl,
            *final(self) == (Profiler { jl: *final(count), ..*old(self) }),
    {
        &mut self.jl
    }

    /// Reads run.
    pub fn inp(&self) -> (count: &u64)
        ensures
            *count == self.inp,
    {
        &self.inp
    }

    pub fn inp_mut(&mut self) -> (count: &mut u64)
        ensures
            *count == old(self).inp,
            *final(self) == (Profiler { inp: *final(count), ..*old(self) }),
    {
        &mut self.inp
    }

    /// Writes run.
    pub fn out(&self) -> (count: &u64)
        ensures
            *count == self.out,
    {
        &self.out
    }

    pub fn out_mut(&mut self) -> (count: &mut u64)
        ensures
            *count == old(self).out,
            *final(self) == (Profiler { out: *final(count), ..*old(self) }),
    {
        &mut self.out
    }

    /// Counts one execution of `instruction` under its category.
    pub fn record(&mut self, instruction: Instruction)
        ensures
            *final(self) == old(self).tallied(instruction),
    {
        match instruction {
            Instruction::Increment(_) | Instruction::Decrement(_) => bump(&mut self.add),
            Instruction::MoveLeft(_) | Instruction::MoveRight(_) => bump(&mut self.mov),
            Instruction::JumpIfZero => bump(&mut self.jr),
            Instruction::JumpIfNotZero => bump(&mut self.jl),
            Instruction::Read => bump(&mut self.inp),
            Instruction::Write => bump(&mut self.out),
        }
    }

    /// The lines of the profile in print order: a category's symbol and how
    /// often it ran.
    pub fn report(&self) -> (lines: [(u8, u64); 6])
        ensures
            lines@ == seq![
                (SYM_INCREMENT, self.add),
                (SYM_RIGHT, self.mov),
                (SYM_OPEN, self.jr),
                (SYM_CLOSE, self.jl),
                (SYM_WRITE, self.out),
                (SYM_READ, self.inp),
            ],
    {
        let lines = [
            (SYM_INCREMENT, self.add),
            (SYM_RIGHT, self.mov),
            (SYM_OPEN, self.jr),
            (SYM_CLOSE, self.jl),
            (SYM_WRITE, self.out),
            (SYM_READ, self.inp),
        ];
        assert(lines@ =~= seq![
            (SYM_INCREMENT, self.add),
            (SYM_RIGHT, self.mov),
            (SYM_OPEN, self.jr),
            (SYM_CLOSE, self.jl),
            (SYM_WRITE, self.out),
            (SYM_READ, self.inp),
        ]);
        lines
    }
}

impl Default for Profiler {
    fn default() -> (p: Profiler)
        ensures
            p == (Profiler { add: 0, mov: 0, jr: 0, jl: 0, inp: 0, out: 0 }),
    {
        Profiler::new()
    }
}

} // verus!
