use brainfuck_rs::{Instruction, Profiler};

#[test]
fn new_profiler_counts_nothing() {
    let profiler = Profiler::new();
    assert_eq!(*profiler.add(), 0);
    assert_eq!(*profiler.mov(), 0);
    assert_eq!(*profiler.jr(), 0);
    assert_eq!(*profiler.jl(), 0);
    assert_eq!(*profiler.inp(), 0);
    assert_eq!(*profiler.out(), 0);
    assert_eq!(Profiler::default(), profiler);
}

#[test]
fn mutable_getters_reach_their_own_counter() {
    let mut profiler = Profiler::new();
    *profiler.add_mut() += 1;
    *profiler.mov_mut() += 2;
    *profiler.jr_mut() += 3;
    *profiler.jl_mut() += 4;
    *profiler.inp_mut() += 5;
    *profiler.out_mut() += 6;
    assert_eq!(
        profiler,
        Profiler { add: 1, mov: 2, jr: 3, jl: 4, inp: 5, out: 6 }
    );
}

#[test]
fn record_counts_by_category() {
    let mut profiler = Profiler::new();
    profiler.record(Instruction::Increment(3));
    profiler.record(Instruction::Decrement(1));
    profiler.record(Instruction::MoveLeft(2));
    profiler.record(Instruction::MoveRight(2));
    profiler.record(Instruction::MoveRight(9));
    profiler.record(Instruction::JumpIfZero);
    profiler.record(Instruction::JumpIfNotZero);
    profiler.record(Instruction::JumpIfNotZero);
    profiler.record(Instruction::Read);
    profiler.record(Instruction::Write);
    assert_eq!(
        profiler,
        Profiler { add: 2, mov: 3, jr: 1, jl: 2, inp: 1, out: 1 }
    );
}

#[test]
fn a_full_counter_stays_full() {
    let mut profiler = Profiler { add: u64::MAX, mov: u64::MAX - 1, jr: 0, jl: 0, inp: 0, out: 0 };
    profiler.record(Instruction::Increment(1));
    profiler.record(Instruction::MoveLeft(1));
    profiler.record(Instruction::MoveLeft(1));
    assert_eq!(*profiler.add(), u64::MAX);
    assert_eq!(*profiler.mov(), u64::MAX);
}

#[test]
fn report_lists_the_categories_in_print_order() {
    let profiler = Profiler { add: 1, mov: 2, jr: 3, jl: 4, inp: 5, out: 6 };
    assert_eq!(
        profiler.report(),
        [(b'+', 1), (b'>', 2), (b'[', 3), (b']', 4), (b'.', 6), (b',', 5)]
    );
}
