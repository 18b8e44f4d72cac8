//! The optimizer: passes that rewrite small windows of the program, run
//! again and again until none of them finds anything to do.

pub mod change;
pub mod laws;
pub mod passes;
pub mod soundness;

use vstd::prelude::*;
use vstd::slice::slice_subrange;

pub use self::change::{splice, Change, Rewrite};
pub use self::passes::{combine, CombineInstPass};
use crate::program::{Instruction, Program};

verus! {

/// A rewrite of a whole program.
pub trait Pass {
    /// The program that the pass leaves.
    spec fn outcome(&self, ops: Seq<Instruction>) -> Seq<Instruction>;

    /// Rewrites `program` and reports whether anything was edited. A pass
    /// that edits leaves the program shorter; one that does not leaves it
    /// as it was.
    fn run_pass(&self, program: &mut Program) -> (progress: bool)
        ensures
            final(program)@ == self.outcome(old(program)@),
            progress <==> final(program)@.len() < old(program)@.len(),
            !progress ==> final(program)@ == old(program)@,
    ;
}

/// A rule on windows of `SIZE` adjacent instructions.
pub trait PeepholePass {
    /// Number of instructions in a window.
    const SIZE: usize;

    /// The edit that the rule asks for at a window.
    spec fn rule(&self, window: Seq<Instruction>) -> Rewrite;

    /// Classifies one window. An edit must leave fewer instructions than the
    /// window held, so that a sweep comes to an end.
    fn run_pass(&self, window: &[Instruction]) -> (change: Change)
        requires
            window@.len() == Self::SIZE,
        ensures
            change@ == self.rule(window@),
            change@.shrinks(Self::SIZE as nat),
    ;
}

/// One sweep of a peephole pass from position `at` to the end. At each
/// position the window is classified. When the rule leaves it alone the
/// sweep moves one instruction to the right; after an edit it looks at the
/// same position again, where new neighbours now meet. The sweep ends where
/// no full window is left. Every edit of a rule shortens the program; at an
/// edit that would not, the sweep stops, as it does for a window of size 0.
pub open spec fn sweep_from<P: PeepholePass>(pass: &P, ops: Seq<Instruction>, at: nat) -> Seq<
    Instruction,
>
    decreases ops.len(), ops.len() - at,
{
    let size = P::SIZE as nat;
    if size == 0 || at + size > ops.len() {
        ops
    } else {
        let change = pass.rule(ops.subrange(at as int, (at + size) as int));
        if !change.edits() {
            sweep_from(pass, ops, at + 1)
        } else if change.replacement().len() < size {
            sweep_from(pass, change.apply(ops, at as int, size as int), at)
        } else {
            ops
        }
    }
}

impl<P: PeepholePass> Pass for P {
    open spec fn outcome(&self, ops: Seq<Instruction>) -> Seq<Instruction> {
        sweep_from(self, ops, 0)
    }

    fn run_pass(&self, program: &mut Program) -> (progress: bool) {
        let size = P::SIZE;
        let mut progress = false;
        if size == 0 {
            return progress;
        }
        let mut i: usize = 0;
        while program.len() >= size && i <= program.len() - size
            invariant
                size == P::SIZE,
                size > 0,
                sweep_from(self, program@, i as nat) == sweep_from(self, old(program)@, 0),
                program@.len() <= old(program)@.len(),
                progress <==> program@.len() < old(program)@.len(),
                !progress ==> program@ == old(program)@,
            decreases program@.len(), program@.len() - i,
        {
            let window = slice_subrange(program.as_slice(), i, i + size);
            let change = PeepholePass::run_pass(self, window);
            let (changed, removed) = change.apply(program.as_raw(), i, size);
            i -= removed;
            if changed {
                progress = true;
            } else {
                i += 1;
            }
        }
        progress
    }
}

/// The program that optimisation arrives at: the combining pass is swept
/// over the program again and again, and the first sweep that edits nothing
/// ends it.
pub open spec fn optimized(ops: Seq<Instruction>) -> Seq<Instruction>
    decreases ops.len(),
{
    let next = sweep_from(&CombineInstPass, ops, 0);
    if next.len() < ops.len() {
        optimized(next)
    } else {
        ops
    }
}

/// Instruction counts before and after one round of passes.
#[derive(Clone, Copy, Debug, PartialEq, Eq, Structural)]
pub struct IterationReport {
    pub before: usize,
    pub after: usize,
}

/// The reports of the rounds that optimisation goes through, the last being
/// the round that edited nothing.
pub open spec fn iteration_log(ops: Seq<Instruction>) -> Seq<IterationReport>
    decreases ops.len(),
{
    let next = sweep_from(&CombineInstPass, ops, 0);
    let report = IterationReport { before: ops.len() as usize, after: next.len() as usize };
    if next.len() < ops.len() {
        seq![report] + iteration_log(next)
    } else {
        seq![report]
    }
}

/// Runs the passes over a program until they find nothing more to do.
#[derive(Debug)]
pub struct Optimizer {
    program: Program,
    verbose: bool,
}

impl Clone for Optimizer {
    fn clone(&self) -> (o: Optimizer)
        ensures
            o.program() == self.program(),
            o.verbose() == self.verbose(),
    {
        Optimizer { program: self.program.clone(), verbose: self.verbose }
    }
}

impl Optimizer {
    /// The program that the optimizer holds.
    pub closed spec fn program(&self) -> Seq<Instruction> {
        self.program@
    }

    /// Whether the optimizer keeps a report of each round.
    pub closed spec fn verbose(&self) -> bool {
        self.verbose
    }

    /// An optimizer for `program`. A verbose one keeps a report of each round.
    pub fn new(program: Program, verbose: bool) -> (o: Optimizer)
        ensures
            o.program() == program@,
            o.verbose() == verbose,
    {
        Optimizer { program, verbose }
    }

    /// Runs one pass over the program and reports whether it edited anything.
    pub fn run_pass<P: Pass>(&mut self, pass: P) -> (progress: bool)
        ensures
            final(self).program() == pass.outcome(old(self).program()),
            final(self).verbose() == old(self).verbose(),
            progress <==> final(self).program().len() < old(self).program().len(),
            !progress ==> final(self).program() == old(self).program(),
    {
        pass.run_pass(&mut self.program)
    }

    /// Optimises the program and freezes it.
    pub fn optimize(self) -> (p: Program)
        ensures
            p is Optimized,
            p@ == optimized(self.program()),
    {
        self.optimize_reporting().0
    }

    /// Optimises the program and freezes it, as [`Optimizer::optimize`] does,
    /// and hands back the reports of the rounds. A verbose optimizer reports
    /// every round, the last one being the round that edited nothing; one
    /// that is not verbose reports none.
    pub fn optimize_reporting(self) -> (r: (Program, Vec<IterationReport>))
        ensures
            r.0 is Optimized,
            r.0@ == optimized(self.program()),
            r.1@ == if self.verbose() {
                iteration_log(self.program())
            } else {
                Seq::<IterationReport>::empty()
            },
    {
        let mut optimizer = self;
        let mut log: Vec<IterationReport> = Vec::new();
        let mut progress = true;
        while progress
            invariant
                optimizer.verbose() == self.verbose(),
                progress ==> optimized(optimizer.program()) == optimized(self.program()),
                !progress ==> optimizer.program() == optimized(self.program()),
                optimizer.verbose() && progress ==> log@ + iteration_log(optimizer.program())
                    == iteration_log(self.program()),
                optimizer.verbose() && !progress ==> log@ == iteration_log(self.program()),
                !optimizer.verbose() ==> log@ == Seq::<IterationReport>::empty(),
            decreases optimizer.program().len(), progress as int,
        {
            let before = optimizer.program.len();
            progress = optimizer.run_pass(CombineInstPass);
            if optimizer.verbose {
                let ghost earlier = log@;
                let report = IterationReport { before, after: optimizer.program.len() };
                log.push(report);
                proof {
                    if progress {
                        assert(log@ + iteration_log(optimizer.program()) =~= earlier + (seq![
                            report,
                        ] + iteration_log(optimizer.program())));
                    } else {
                        assert(log@ =~= earlier + seq![report]);
                    }
                }
            }
        }
        (optimizer.program.into_optimized(), log)
    }
}

} // verus!
