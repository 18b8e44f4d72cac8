use brainfuck_rs::optimizer::IterationReport;
use brainfuck_rs::{
    Change, CombineInstPass, InsertOrPush, Instruction, Optimizer, Pass, PeepholePass, Program,
};

use brainfuck_rs::Instruction::{
    Decrement, Increment, JumpIfNotZero, JumpIfZero, MoveLeft, MoveRight, Read, Write,
};

fn optimize(ops: Vec<Instruction>) -> Vec<Instruction> {
    Optimizer::new(Program::Raw(ops), false).optimize().as_slice().to_vec()
}

fn classify(first: Instruction, second: Instruction) -> Change {
    PeepholePass::run_pass(&CombineInstPass, &[first, second])
}

fn replaced_by(change: Change) -> Vec<Instruction> {
    match change {
        Change::Replace(with) => with,
        other => panic!("expected a replacement, got {:?}", other),
    }
}

#[test]
fn window_of_the_combining_pass_is_two() {
    assert_eq!(<CombineInstPass as PeepholePass>::SIZE, 2);
}

#[test]
fn same_kind_merges_to_the_wrapping_sum() {
    assert_eq!(replaced_by(classify(Increment(2), Increment(3))), vec![Increment(5)]);
    assert_eq!(replaced_by(classify(Increment(200), Increment(100))), vec![Increment(44)]);
    assert_eq!(replaced_by(classify(Increment(255), Increment(1))), vec![Increment(0)]);
    assert_eq!(replaced_by(classify(Decrement(2), Decrement(3))), vec![Decrement(5)]);
    assert_eq!(replaced_by(classify(Decrement(128), Decrement(128))), vec![Decrement(0)]);
    assert_eq!(replaced_by(classify(MoveLeft(2), MoveLeft(3))), vec![MoveLeft(5)]);
    assert_eq!(replaced_by(classify(MoveRight(2), MoveRight(3))), vec![MoveRight(5)]);
    assert_eq!(
        replaced_by(classify(MoveRight(usize::MAX), MoveRight(2))),
        vec![MoveRight(1)]
    );
    assert_eq!(
        replaced_by(classify(MoveLeft(usize::MAX), MoveLeft(1))),
        vec![MoveLeft(0)]
    );
}

#[test]
fn opposite_arithmetic_cancels() {
    assert!(matches!(classify(Increment(4), Decrement(4)), Change::Remove));
    assert!(matches!(classify(Decrement(4), Increment(4)), Change::Remove));
    assert_eq!(replaced_by(classify(Increment(7), Decrement(4))), vec![Increment(3)]);
    assert_eq!(replaced_by(classify(Increment(4), Decrement(7))), vec![Decrement(3)]);
    assert_eq!(replaced_by(classify(Decrement(7), Increment(4))), vec![Decrement(3)]);
    assert_eq!(replaced_by(classify(Decrement(4), Increment(7))), vec![Increment(3)]);
}

#[test]
fn opposite_movement_cancels() {
    assert!(matches!(classify(MoveRight(4), MoveLeft(4)), Change::Remove));
    assert!(matches!(classify(MoveLeft(4), MoveRight(4)), Change::Remove));
    assert_eq!(replaced_by(classify(MoveRight(7), MoveLeft(4))), vec![MoveRight(3)]);
    assert_eq!(replaced_by(classify(MoveRight(4), MoveLeft(7))), vec![MoveLeft(3)]);
    assert_eq!(replaced_by(classify(MoveLeft(7), MoveRight(4))), vec![MoveLeft(3)]);
    assert_eq!(replaced_by(classify(MoveLeft(4), MoveRight(7))), vec![MoveRight(3)]);
}

#[test]
fn other_pairs_are_left_alone() {
    let others = [Read, Write, JumpIfZero, JumpIfNotZero];
    let all = [
        Increment(1),
        Decrement(1),
        MoveLeft(1),
        MoveRight(1),
        Read,
        Write,
        JumpIfZero,
        JumpIfNotZero,
    ];
    for other in others {
        for any in all {
            assert!(matches!(classify(other, any), Change::Ignore));
            assert!(matches!(classify(any, other), Change::Ignore));
        }
    }
    assert!(matches!(classify(Increment(1), MoveRight(1)), Change::Ignore));
    assert!(matches!(classify(MoveLeft(1), Decrement(1)), Change::Ignore));
}

#[test]
fn apply_ignore_changes_nothing() {
    let mut ops = vec![Read, Write];
    assert_eq!(Change::Ignore.apply(&mut ops, 0, 2), (false, 0));
    assert_eq!(ops, vec![Read, Write]);
    // An edit that does nothing asks nothing of the window.
    assert_eq!(Change::Ignore.apply(&mut ops, 5, 9), (false, 0));
    assert_eq!(ops, vec![Read, Write]);
    assert!(matches!(Change::default(), Change::Ignore));
}

#[test]
fn apply_remove_deletes_the_window() {
    let mut ops = vec![Read, Increment(1), Decrement(1), Write];
    assert_eq!(Change::Remove.apply(&mut ops, 1, 2), (true, 0));
    assert_eq!(ops, vec![Read, Write]);
    assert_eq!(Change::Remove.apply(&mut ops, 0, 2), (true, 0));
    assert!(ops.is_empty());
    let mut ops = vec![Read];
    assert_eq!(Change::Remove.apply(&mut ops, 1, 0), (true, 0));
    assert_eq!(ops, vec![Read]);
}

#[test]
fn apply_replace_puts_the_instructions_in_the_window() {
    let mut ops = vec![Read, Increment(1), Increment(2), Write];
    assert_eq!(Change::Replace(vec![Increment(3)]).apply(&mut ops, 1, 2), (true, 0));
    assert_eq!(ops, vec![Read, Increment(3), Write]);
    // Longer than the window, at the end, and in order.
    let mut ops = vec![Read, Write];
    let with = vec![MoveLeft(1), MoveRight(2), Increment(3)];
    assert_eq!(Change::Replace(with).apply(&mut ops, 1, 1), (true, 0));
    assert_eq!(ops, vec![Read, MoveLeft(1), MoveRight(2), Increment(3)]);
    // An empty replacement deletes.
    let mut ops = vec![Read, Write];
    assert_eq!(Change::Replace(Vec::new()).apply(&mut ops, 0, 1), (true, 0));
    assert_eq!(ops, vec![Write]);
}

#[test]
fn insert_or_push_appends_past_the_end() {
    let mut items = vec![1, 2, 3];
    items.insert_or_push(1, 9);
    assert_eq!(items, vec![1, 9, 2, 3]);
    items.insert_or_push(4, 8);
    assert_eq!(items, vec![1, 9, 2, 3, 8]);
    items.insert_or_push(100, 7);
    assert_eq!(items, vec![1, 9, 2, 3, 8, 7]);
    items.insert_or_push(0, 6);
    assert_eq!(items, vec![6, 1, 9, 2, 3, 8, 7]);
    let mut empty: Vec<u8> = Vec::new();
    empty.insert_or_push(3, 1);
    assert_eq!(empty, vec![1]);
}

#[test]
fn a_sweep_looks_at_the_same_position_again_after_an_edit() {
    let mut program = Program::parse("+-+-+");
    let progress = Pass::run_pass(&CombineInstPass, &mut program);
    assert!(progress);
    assert_eq!(&program[..], &[Increment(1)][..]);
}

#[test]
fn a_sweep_does_not_look_back() {
    // After `><` is gone the two increments meet behind the scan position.
    let mut program = Program::parse("+><+");
    assert!(Pass::run_pass(&CombineInstPass, &mut program));
    assert_eq!(&program[..], &[Increment(1), Increment(1)][..]);
    assert!(Pass::run_pass(&CombineInstPass, &mut program));
    assert_eq!(&program[..], &[Increment(2)][..]);
    assert!(!Pass::run_pass(&CombineInstPass, &mut program));
    assert_eq!(&program[..], &[Increment(2)][..]);
}

#[test]
fn a_sweep_over_a_short_program_edits_nothing() {
    let mut program = Program::new();
    assert!(!Pass::run_pass(&CombineInstPass, &mut program));
    assert_eq!(program.len(), 0);
    let mut program = Program::parse("+");
    assert!(!Pass::run_pass(&CombineInstPass, &mut program));
    assert_eq!(&program[..], &[Increment(1)][..]);
}

#[test]
fn a_sweep_thaws_a_frozen_program() {
    let mut program = Program::parse("++").into_optimized();
    assert!(Pass::run_pass(&CombineInstPass, &mut program));
    assert!(matches!(program, Program::Raw(_)));
    assert_eq!(&program[..], &[Increment(2)][..]);
}

#[test]
fn optimize_runs_to_the_fixpoint_and_freezes() {
    let program = Optimizer::new(Program::parse("+><+"), false).optimize();
    assert!(matches!(program, Program::Optimized(_)));
    assert_eq!(&program[..], &[Increment(2)][..]);
}

#[test]
fn optimize_compresses_runs() {
    let program = Optimizer::new(Program::parse("+++++[>++++++++<-]>."), false).optimize();
    assert_eq!(
        &program[..],
        &[
            Increment(5),
            JumpIfZero,
            MoveRight(1),
            Increment(8),
            MoveLeft(1),
            Decrement(1),
            JumpIfNotZero,
            MoveRight(1),
            Write,
        ][..]
    );
}

#[test]
fn optimize_leaves_loops_and_io_where_they_are() {
    assert_eq!(
        optimize(vec![JumpIfZero, JumpIfNotZero, Read, Read, Write, Write]),
        vec![JumpIfZero, JumpIfNotZero, Read, Read, Write, Write]
    );
    assert_eq!(optimize(Vec::new()), Vec::new());
}

#[test]
fn optimizing_twice_changes_nothing_more() {
    let texts = ["+++--->><<<.,[+-]", "+><+-<>-", "", "[[]]", "+-+-+-", ">>>><<<<<+"];
    for text in texts {
        let once = Optimizer::new(Program::parse(text), false).optimize();
        let twice = Optimizer::new(once.clone(), false).optimize();
        assert_eq!(once.len(), twice.len());
        assert_eq!(&once[..], &twice[..]);
    }
}

#[test]
fn increment_then_decrement_by_the_same_collapses_to_nothing() {
    for k in 0..=255u8 {
        assert_eq!(optimize(vec![Increment(k), Decrement(k)]), Vec::new());
        assert_eq!(optimize(vec![Decrement(k), Increment(k)]), Vec::new());
    }
}

#[test]
fn two_increments_collapse_to_their_sum_modulo_256() {
    for a in 0..=255u8 {
        for b in [0u8, 1, 2, 127, 128, 254, 255] {
            let sum = ((a as u16 + b as u16) % 256) as u8;
            assert_eq!(optimize(vec![Increment(a), Increment(b)]), vec![Increment(sum)]);
        }
    }
}

#[test]
fn a_merge_to_zero_stays_in_the_program() {
    assert_eq!(optimize(vec![Increment(255), Increment(1)]), vec![Increment(0)]);
    // The order of merging decides between equivalent results.
    assert_eq!(
        optimize(vec![Increment(255), Increment(1), Decrement(1)]),
        vec![Decrement(1)]
    );
}

#[test]
fn a_quiet_optimizer_reports_nothing() {
    let (program, log) = Optimizer::new(Program::parse("+><+"), false).optimize_reporting();
    assert_eq!(&program[..], &[Increment(2)][..]);
    assert!(log.is_empty());
}

#[test]
fn a_verbose_optimizer_reports_every_round() {
    let (program, log) = Optimizer::new(Program::parse("+><+"), true).optimize_reporting();
    assert!(matches!(program, Program::Optimized(_)));
    assert_eq!(&program[..], &[Increment(2)][..]);
    assert_eq!(
        log,
        vec![
            IterationReport { before: 4, after: 2 },
            IterationReport { before: 2, after: 1 },
            IterationReport { before: 1, after: 1 },
        ]
    );
    let (_, log) = Optimizer::new(Program::parse(".,"), true).optimize_reporting();
    assert_eq!(log, vec![IterationReport { before: 2, after: 2 }]);
    let (_, log) = Optimizer::new(Program::new(), true).optimize_reporting();
    assert_eq!(log, vec![IterationReport { before: 0, after: 0 }]);
}

#[test]
fn run_pass_on_the_optimizer_runs_one_sweep() {
    let mut optimizer = Optimizer::new(Program::parse("+><+"), false);
    assert!(optimizer.run_pass(CombineInstPass));
    assert!(optimizer.run_pass(CombineInstPass));
    assert!(!optimizer.run_pass(CombineInstPass));
    let copy = optimizer.clone();
    assert_eq!(&optimizer.optimize()[..], &[Increment(2)][..]);
    assert_eq!(&copy.optimize()[..], &[Increment(2)][..]);
}
