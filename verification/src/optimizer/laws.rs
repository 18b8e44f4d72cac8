//! What holds of optimisation as a whole.

use vstd::prelude::*;

use crate::optimizer::passes::{lemma_combine_window, CombineInstPass};
use crate::optimizer::{optimized, sweep_from, PeepholePass};
use crate::program::Instruction;

verus! {

/// A sweep never lengthens a program, and a sweep that keeps the length
/// keeps the program.
pub proof fn lemma_sweep_shortens_or_keeps<P: PeepholePass>(
    pass: &P,
    ops: Seq<Instruction>,
    at: nat,
)
    ensures
        sweep_from(pass, ops, at).len() <= ops.len(),
        sweep_from(pass, ops, at).len() == ops.len() ==> sweep_from(pass, ops, at) == ops,
    decreases ops.len(), ops.len() - at,
{
    let size = P::SIZE as nat;
    if size == 0 || at + size > ops.len() {
    } else {
        let change = pass.rule(ops.subrange(at as int, (at + size) as int));
        if !change.edits() {
            lemma_sweep_shortens_or_keeps(pass, ops, at + 1);
        } else if change.replacement().len() < size {
            lemma_sweep_shortens_or_keeps(pass, change.apply(ops, at as int, size as int), at);
        }
    }
}

/// Optimisation ends at a fixpoint: a further sweep over its result edits
/// nothing.
pub proof fn lemma_optimized_is_fixpoint(ops: Seq<Instruction>)
    ensures
        sweep_from(&CombineInstPass, optimized(ops), 0) == optimized(ops),
    decreases ops.len(),
{
    let next = sweep_from(&CombineInstPass, ops, 0);
    lemma_sweep_shortens_or_keeps(&CombineInstPass, ops, 0);
    if next.len() < ops.len() {
        lemma_optimized_is_fixpoint(next);
    }
}

/// Optimisation is idempotent: optimising an optimised program gives the
/// same instructions again.
pub proof fn lemma_optimize_idempotent(ops: Seq<Instruction>)
    ensures
        optimized(optimized(ops)) == optimized(ops),
    decreases ops.len(),
{
    let next = sweep_from(&CombineInstPass, ops, 0);
    if next.len() < ops.len() {
        lemma_optimize_idempotent(next);
    } else {
        lemma_optimized_is_fixpoint(ops);
    }
}

/// An increment followed by a decrement of the same magnitude optimises to
/// the empty program.
pub proof fn lemma_increment_then_decrement_cancels(k: u8)
    ensures
        optimized(seq![Instruction::Increment(k), Instruction::Decrement(k)]) == Seq::<
            Instruction,
        >::empty(),
{
    let ops = seq![Instruction::Increment(k), Instruction::Decrement(k)];
    let none = Seq::<Instruction>::empty();
    lemma_combine_window();
    assert(ops.subrange(0, 2) =~= ops);
    assert(CombineInstPass.rule(ops).apply(ops, 0, 2) =~= none);
    assert(sweep_from(&CombineInstPass, none, 0) == none);
    assert(sweep_from(&CombineInstPass, ops, 0) == none);
    assert(optimized(none) == none);
}

/// Two increments in a row optimise to one increment of their sum modulo 256.
pub proof fn lemma_increments_merge(a: u8, b: u8)
    ensures
        optimized(seq![Instruction::Increment(a), Instruction::Increment(b)]) == seq![
            Instruction::Increment(((a + b) % 256) as u8),
        ],
{
    let ops = seq![Instruction::Increment(a), Instruction::Increment(b)];
    let merged = seq![Instruction::Increment(((a + b) % 256) as u8)];
    lemma_combine_window();
    assert(ops.subrange(0, 2) =~= ops);
    assert(a.wrapping_add(b) == ((a + b) % 256) as u8);
    assert(CombineInstPass.rule(ops).apply(ops, 0, 2) =~= merged);
    assert(sweep_from(&CombineInstPass, merged, 0) == merged);
    assert(sweep_from(&CombineInstPass, ops, 0) == merged);
    assert(optimized(merged) == merged);
}

} // verus!
