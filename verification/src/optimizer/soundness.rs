//! Optimisation does not change what a program does: whenever the program
//! halts, the optimised program halts too, with the same bytes on the tape,
//! the same pointer, the same input read and the same output written.

use vstd::prelude::*;

use crate::machine::{next_input, scan_backward, scan_forward, Machine};
use crate::optimizer::change::splice;
use crate::optimizer::passes::{combine, lemma_combine_window, CombineInstPass};
use crate::optimizer::{optimized, sweep_from, PeepholePass};
use crate::program::{decode, parse, Instruction};
use crate::tape::{lemma_shift_keeps_values, TapeView, TAPE_SIZE};

verus! {

/// Two tapes that cannot be told apart by running a program: the pointer
/// stands on the same cell and every cell reads the same. Which cells count
/// as visited is left out.
pub open spec fn same_tape(a: TapeView, b: TapeView) -> bool {
    a.pointer == b.pointer && a.values() == b.values()
}

/// Two machines that have done the same: their tapes read the same, and
/// they have read as much input and written the same output. The counter
/// and the instrumentation are left out.
pub open spec fn same_outcome(a: Machine, b: Machine) -> bool {
    same_tape(a.tape, b.tape) && a.consumed == b.consumed && a.output == b.output
}

/// The number of cells that a movement moves by; zero for anything else.
pub open spec fn move_count(instruction: Instruction) -> nat {
    match instruction {
        Instruction::MoveLeft(steps) => steps as nat,
        Instruction::MoveRight(steps) => steps as nat,
        _ => 0,
    }
}

/// The move counts of a program, added up.
pub open spec fn move_weight(program: Seq<Instruction>) -> nat
    decreases program.len(),
{
    if program.len() == 0 {
        0
    } else {
        move_weight(program.drop_last()) + move_count(program.last())
    }
}

/// Arithmetic and movement: the instructions that only change the tape.
pub open spec fn is_simple(instruction: Instruction) -> bool {
    match instruction {
        Instruction::Increment(_) => true,
        Instruction::Decrement(_) => true,
        Instruction::MoveLeft(_) => true,
        Instruction::MoveRight(_) => true,
        _ => false,
    }
}

/// What an instruction does to the tape.
pub open spec fn effect(instruction: Instruction, tape: TapeView) -> TapeView {
    match instruction {
        Instruction::Increment(delta) => tape.plus(delta),
        Instruction::Decrement(delta) => tape.minus(delta),
        Instruction::MoveLeft(steps) => tape.shift_left(steps as nat),
        Instruction::MoveRight(steps) => tape.shift_right(steps as nat),
        _ => tape,
    }
}

/// What a replacement of at most one instruction does to the tape.
pub open spec fn effects(replacement: Seq<Instruction>, tape: TapeView) -> TapeView {
    if replacement.len() == 0 {
        tape
    } else {
        effect(replacement[0], tape)
    }
}

/// The signed amount that an arithmetic instruction adds to a byte.
pub open spec fn delta_of(instruction: Instruction) -> int {
    match instruction {
        Instruction::Increment(delta) => delta as int,
        Instruction::Decrement(delta) => -(delta as int),
        _ => 0,
    }
}

/// The signed number of cells that a movement moves to the right.
pub open spec fn drift_of(instruction: Instruction) -> int {
    match instruction {
        Instruction::MoveRight(steps) => steps as int,
        Instruction::MoveLeft(steps) => -(steps as int),
        _ => 0,
    }
}

/// Whether the instruction is an increment or a decrement.
pub open spec fn is_arithmetic(instruction: Instruction) -> bool {
    instruction is Increment || instruction is Decrement
}

/// Whether the instruction is a movement.
pub open spec fn is_movement(instruction: Instruction) -> bool {
    instruction is MoveLeft || instruction is MoveRight
}

/// Storing a byte under the pointer changes that byte and nothing else that
/// can be read.
proof fn lemma_store(a: TapeView, b: TapeView, byte: u8)
    requires
        a.wf(),
        b.wf(),
        same_tape(a, b),
    ensures
        a.store(byte).wf(),
        b.store(byte).wf(),
        same_tape(a.store(byte), b.store(byte)),
        a.value() == b.value(),
        a.store(byte).value() == byte,
        a.store(byte).pointer == a.pointer,
        a.store(byte).values() == a.values().update(a.pointer as int, byte),
{
    assert(a.store(byte).values() =~= a.values().update(a.pointer as int, byte));
    assert(b.store(byte).values() =~= b.values().update(b.pointer as int, byte));
    assert(a.value() == a.values()[a.pointer as int]);
    assert(b.value() == b.values()[b.pointer as int]);
}

/// Storing the byte that is there already changes nothing that can be read.
proof fn lemma_store_same(tape: TapeView)
    requires
        tape.wf(),
    ensures
        same_tape(tape.store(tape.value()), tape),
{
    lemma_store(tape, tape, tape.value());
    assert(tape.value() == tape.values()[tape.pointer as int]);
    assert(tape.store(tape.value()).values() =~= tape.values());
}

/// Storing twice is storing the second byte.
proof fn lemma_store_twice(tape: TapeView, first: u8, second: u8)
    requires
        tape.wf(),
    ensures
        same_tape(tape.store(first).store(second), tape.store(second)),
{
    lemma_store(tape, tape, first);
    lemma_store(tape.store(first), tape.store(first), second);
    lemma_store(tape, tape, second);
    assert(tape.store(first).store(second).values() =~= tape.store(second).values());
}

/// An arithmetic instruction stores the byte under the pointer plus its
/// amount, modulo 256.
proof fn lemma_arithmetic_effect(instruction: Instruction, tape: TapeView)
    requires
        is_arithmetic(instruction),
    ensures
        effect(instruction, tape) == tape.store(
            ((tape.value() + delta_of(instruction)) % 256) as u8,
        ),
{
}

/// A movement moves the pointer by its number of cells around the ring and
/// changes no byte.
proof fn lemma_movement_effect(instruction: Instruction, tape: TapeView)
    requires
        is_movement(instruction),
        tape.wf(),
    ensures
        effect(instruction, tape).wf(),
        effect(instruction, tape).values() == tape.values(),
        effect(instruction, tape).pointer == (tape.pointer + drift_of(instruction)) % (
            TAPE_SIZE as int),
{
    match instruction {
        Instruction::MoveLeft(steps) => lemma_shift_keeps_values(tape, steps as nat),
        Instruction::MoveRight(steps) => lemma_shift_keeps_values(tape, steps as nat),
        _ => {},
    }
}

/// An instruction does the same to tapes that read the same.
proof fn lemma_effect_congruent(instruction: Instruction, a: TapeView, b: TapeView)
    requires
        a.wf(),
        b.wf(),
        same_tape(a, b),
    ensures
        effect(instruction, a).wf(),
        effect(instruction, b).wf(),
        same_tape(effect(instruction, a), effect(instruction, b)),
{
    if is_arithmetic(instruction) {
        lemma_arithmetic_effect(instruction, a);
        lemma_arithmetic_effect(instruction, b);
        lemma_store(a, b, ((a.value() + delta_of(instruction)) % 256) as u8);
    } else if is_movement(instruction) {
        lemma_movement_effect(instruction, a);
        lemma_movement_effect(instruction, b);
    }
}

/// What the combination of two arithmetic instructions leaves: nothing
/// where their amounts cancel, else one arithmetic instruction of their sum
/// modulo 256.
proof fn lemma_combine_arithmetic(first: Instruction, second: Instruction)
    requires
        is_arithmetic(first),
        is_arithmetic(second),
    ensures
        combine(first, second).edits(),
        combine(first, second).replacement().len() <= 1,
        combine(first, second).replacement().len() == 0 ==> delta_of(first) + delta_of(second)
            == 0,
        combine(first, second).replacement().len() == 1 ==> is_arithmetic(
            combine(first, second).replacement()[0],
        ) && (delta_of(combine(first, second).replacement()[0]) - delta_of(first) - delta_of(
            second,
        )) % 256 == 0,
{
}

/// What the combination of two movements leaves, where their counts do not
/// wrap: nothing where they cancel, else one movement by their sum.
proof fn lemma_combine_movement(first: Instruction, second: Instruction)
    requires
        is_movement(first),
        is_movement(second),
        move_count(first) + move_count(second) <= usize::MAX,
    ensures
        combine(first, second).edits(),
        combine(first, second).replacement().len() <= 1,
        combine(first, second).replacement().len() == 0 ==> drift_of(first) + drift_of(second)
            == 0,
        combine(first, second).replacement().len() == 1 ==> is_movement(
            combine(first, second).replacement()[0],
        ) && drift_of(combine(first, second).replacement()[0]) == drift_of(first) + drift_of(
            second,
        ) && move_count(combine(first, second).replacement()[0]) <= move_count(first)
            + move_count(second),
{
}

/// Only two arithmetic instructions or two movements are combined.
proof fn lemma_combine_same_axis(first: Instruction, second: Instruction)
    requires
        combine(first, second).edits(),
    ensures
        (is_arithmetic(first) && is_arithmetic(second)) || (is_movement(first) && is_movement(
            second,
        )),
{
}

/// Adding to a byte twice is adding the sum, modulo 256.
proof fn lemma_add_twice(v: int, first: int, second: int, third: int)
    requires
        (third - first - second) % 256 == 0,
    ensures
        (((v + first) % 256) + second) % 256 == (v + third) % 256,
        first + second == 0 ==> (((v + first) % 256) + second) % 256 == v % 256,
{
}

/// Turning around the ring twice is turning by the sum.
proof fn lemma_turn_twice(p: int, first: int, second: int)
    ensures
        (((p + first) % (TAPE_SIZE as int)) + second) % (TAPE_SIZE as int) == (p + first
            + second) % (TAPE_SIZE as int),
{
}

/// The instruction that a combination leaves does to the tape what the two
/// instructions did that it stands for, as long as no move count wraps.
pub proof fn lemma_combine_keeps_effect(first: Instruction, second: Instruction, tape: TapeView)
    requires
        tape.wf(),
        combine(first, second).edits(),
        move_count(first) + move_count(second) <= usize::MAX,
    ensures
        is_simple(first),
        is_simple(second),
        combine(first, second).replacement().len() <= 1,
        combine(first, second).replacement().len() == 1 ==> is_simple(
            combine(first, second).replacement()[0],
        ) && move_count(combine(first, second).replacement()[0]) <= move_count(first)
            + move_count(second),
        effect(second, effect(first, tape)).wf(),
        same_tape(
            effect(second, effect(first, tape)),
            effects(combine(first, second).replacement(), tape),
        ),
{
    let once = effect(first, tape);
    let twice = effect(second, once);
    let with = combine(first, second).replacement();
    lemma_combine_same_axis(first, second);
    lemma_effect_congruent(first, tape, tape);
    lemma_effect_congruent(second, once, once);
    if is_arithmetic(first) {
        lemma_combine_arithmetic(first, second);
        let v = tape.value() as int;
        let one = ((v + delta_of(first)) % 256) as u8;
        let two = ((one + delta_of(second)) % 256) as u8;
        lemma_arithmetic_effect(first, tape);
        lemma_arithmetic_effect(second, once);
        lemma_store(tape, tape, one);
        lemma_store_twice(tape, one, two);
        if with.len() == 0 {
            lemma_add_twice(v, delta_of(first), delta_of(second), 0);
            lemma_store_same(tape);
        } else {
            lemma_add_twice(v, delta_of(first), delta_of(second), delta_of(with[0]));
            lemma_arithmetic_effect(with[0], tape);
        }
    } else {
        lemma_combine_movement(first, second);
        lemma_movement_effect(first, tape);
        lemma_movement_effect(second, once);
        lemma_turn_twice(tape.pointer as int, drift_of(first), drift_of(second));
        if with.len() == 1 {
            lemma_movement_effect(with[0], tape);
        }
    }
}

/// `after` is `before` with the two instructions at `at` combined.
pub open spec fn combined_at(before: Seq<Instruction>, at: int, after: Seq<Instruction>) -> bool {
    &&& 0 <= at
    &&& at + 2 <= before.len()
    &&& combine(before[at], before[at + 1]).edits()
    &&& after == splice(
        before,
        at,
        2,
        combine(before[at], before[at + 1]).replacement(),
    )
    &&& move_count(before[at]) + move_count(before[at + 1]) <= usize::MAX
}

/// By how many instructions the combination at `at` shortens the program.
spec fn gap(before: Seq<Instruction>, at: int) -> int {
    2 - combine(before[at], before[at + 1]).replacement().len()
}

/// Where a position of the program stands after a combination at `at` that
/// took `gap` instructions out. Not meant for the second instruction of the
/// window.
spec fn shifted(position: int, at: int, gap: int) -> int {
    if position <= at {
        position
    } else {
        position - gap
    }
}

/// What a combination leaves of the program: the instructions before the
/// window and after it, and between them one simple instruction or none.
proof fn lemma_combined_shape(before: Seq<Instruction>, at: int, after: Seq<Instruction>)
    requires
        combined_at(before, at, after),
    ensures
        1 <= gap(before, at) <= 2,
        after.len() + gap(before, at) == before.len(),
        is_simple(before[at]),
        is_simple(before[at + 1]),
        gap(before, at) == 1 ==> is_simple(after[at]) && after[at] == combine(
            before[at],
            before[at + 1],
        ).replacement()[0],
        forall|k: int| 0 <= k < at ==> #[trigger] before[k] == after[k],
        forall|k: int|
            at + 2 <= k < before.len() ==> #[trigger] before[k] == after[k - gap(before, at)],
{
    lemma_combine_keeps_effect(before[at], before[at + 1], TapeView::fresh());
}

/// A forward search for a loop's close finds the same close before and
/// after a combination.
proof fn lemma_scan_forward_shifted(
    before: Seq<Instruction>,
    at: int,
    after: Seq<Instruction>,
    from: int,
    depth: nat,
)
    requires
        combined_at(before, at, after),
        0 <= from,
        from <= at || from >= at + 2,
        depth >= 1,
    ensures
        scan_forward(before, from as nat, depth) >= before.len() ==> scan_forward(
            after,
            shifted(from, at, gap(before, at)) as nat,
            depth,
        ) >= after.len(),
        scan_forward(before, from as nat, depth) < before.len() ==> {
            &&& scan_forward(before, from as nat, depth) != at
            &&& scan_forward(before, from as nat, depth) != at + 1
            &&& scan_forward(after, shifted(from, at, gap(before, at)) as nat, depth) == shifted(
                scan_forward(before, from as nat, depth) as int,
                at,
                gap(before, at),
            )
        },
    decreases before.len() - from,
{
    lemma_combined_shape(before, at, after);
    let d = gap(before, at);
    if from >= before.len() {
    } else if from == at {
        assert(scan_forward(before, at as nat, depth) == scan_forward(
            before,
            (at + 1) as nat,
            depth,
        ));
        assert(scan_forward(before, (at + 1) as nat, depth) == scan_forward(
            before,
            (at + 2) as nat,
            depth,
        ));
        if d == 1 {
            assert(scan_forward(after, at as nat, depth) == scan_forward(
                after,
                (at + 1) as nat,
                depth,
            ));
        }
        lemma_scan_forward_shifted(before, at, after, at + 2, depth);
    } else {
        let there = shifted(from, at, d);
        assert(before[from] == after[there]);
        match before[from] {
            Instruction::JumpIfZero => {
                lemma_scan_forward_shifted(before, at, after, from + 1, depth + 1);
            },
            Instruction::JumpIfNotZero => {
                if depth > 1 {
                    lemma_scan_forward_shifted(before, at, after, from + 1, (depth - 1) as nat);
                }
            },
            _ => {
                lemma_scan_forward_shifted(before, at, after, from + 1, depth);
            },
        }
    }
}

/// Where a backward search continues after a combination at `at` that took
/// `gap` instructions out. Not meant for the first instruction of the window.
spec fn shifted_back(position: int, at: int, gap: int) -> int {
    if position >= at + 1 {
        position - gap
    } else {
        position
    }
}

/// A backward search for a loop's open finds the same open before and after
/// a combination.
proof fn lemma_scan_backward_shifted(
    before: Seq<Instruction>,
    at: int,
    after: Seq<Instruction>,
    from: int,
    depth: nat,
)
    requires
        combined_at(before, at, after),
        -1 <= from < before.len(),
        from != at,
        depth >= 1,
    ensures
        scan_backward(before, from, depth) < 0 ==> scan_backward(
            after,
            shifted_back(from, at, gap(before, at)),
            depth,
        ) < 0,
        scan_backward(before, from, depth) >= 0 ==> {
            &&& scan_backward(before, from, depth) != at
            &&& scan_backward(before, from, depth) != at + 1
            &&& scan_backward(before, from, depth) < before.len()
            &&& scan_backward(after, shifted_back(from, at, gap(before, at)), depth) == shifted(
                scan_backward(before, from, depth),
                at,
                gap(before, at),
            )
        },
    decreases from + 1,
{
    lemma_combined_shape(before, at, after);
    let d = gap(before, at);
    if from < 0 {
    } else if from == at + 1 {
        assert(scan_backward(before, at + 1, depth) == scan_backward(before, at, depth));
        assert(scan_backward(before, at, depth) == scan_backward(before, at - 1, depth));
        if d == 1 {
            assert(scan_backward(after, at, depth) == scan_backward(after, at - 1, depth));
        }
        lemma_scan_backward_shifted(before, at, after, at - 1, depth);
    } else {
        let there = shifted_back(from, at, d);
        assert(before[from] == after[there]);
        match before[from] {
            Instruction::JumpIfNotZero => {
                lemma_scan_backward_shifted(before, at, after, from - 1, depth + 1);
            },
            Instruction::JumpIfZero => {
                if depth > 1 {
                    lemma_scan_backward_shifted(before, at, after, from - 1, (depth - 1) as nat);
                }
            },
            _ => {
                lemma_scan_backward_shifted(before, at, after, from - 1, depth);
            },
        }
    }
}

/// A machine on the program and a machine on the combined program that
/// stand at the same place and have done the same.
spec fn related(a: Machine, b: Machine, at: int, gap: int) -> bool {
    &&& a.counter != at + 1
    &&& b.counter == shifted(a.counter as int, at, gap)
    &&& a.tape.wf()
    &&& b.tape.wf()
    &&& same_outcome(a, b)
}

/// Outside the window, one step of the program is one step of the combined
/// program.
proof fn lemma_step_outside(
    before: Seq<Instruction>,
    at: int,
    after: Seq<Instruction>,
    input: Seq<u8>,
    a: Machine,
    b: Machine,
)
    requires
        combined_at(before, at, after),
        related(a, b, at, gap(before, at)),
        a.counter < before.len(),
        a.counter != at,
    ensures
        b.counter < after.len(),
        related(a.step(before, input), b.step(after, input), at, gap(before, at)),
{
    lemma_combined_shape(before, at, after);
    let d = gap(before, at);
    let instruction = before[a.counter as int];
    assert(after[b.counter as int] == instruction);
    lemma_store(a.tape, b.tape, 0);
    match instruction {
        Instruction::Read => {
            lemma_store(a.tape, b.tape, next_input(input, a.consumed));
        },
        Instruction::Write => {},
        Instruction::JumpIfZero => {
            lemma_scan_forward_shifted(before, at, after, a.counter as int + 1, 1);
        },
        Instruction::JumpIfNotZero => {
            lemma_scan_backward_shifted(before, at, after, a.counter - 1, 1);
        },
        _ => {
            lemma_effect_congruent(instruction, a.tape, b.tape);
        },
    }
}

/// Across the window, the two steps of the program are the one step of the
/// combined program, or none where the two cancelled.
proof fn lemma_step_window(
    before: Seq<Instruction>,
    at: int,
    after: Seq<Instruction>,
    input: Seq<u8>,
    a: Machine,
    b: Machine,
)
    requires
        combined_at(before, at, after),
        related(a, b, at, gap(before, at)),
        a.counter == at,
    ensures
        a.step(before, input).counter == at + 1,
        gap(before, at) == 2 ==> related(
            a.step(before, input).step(before, input),
            b,
            at,
            gap(before, at),
        ),
        gap(before, at) == 1 ==> b.counter < after.len() && related(
            a.step(before, input).step(before, input),
            b.step(after, input),
            at,
            gap(before, at),
        ),
{
    lemma_combined_shape(before, at, after);
    let first = before[at];
    let second = before[at + 1];
    let with = combine(first, second).replacement();
    lemma_combine_keeps_effect(first, second, a.tape);
    let a1 = a.step(before, input);
    let a2 = a1.step(before, input);
    assert(a1.tape == effect(first, a.tape));
    assert(a1.counter == at + 1);
    assert(a2.tape == effect(second, a1.tape));
    assert(a2.counter == at + 2);
    if with.len() == 1 {
        lemma_effect_congruent(with[0], a.tape, b.tape);
        assert(b.step(after, input).tape == effect(with[0], b.tape));
    }
}

/// A run of the program that halts is matched by a run of the combined
/// program that halts with the same outcome.
proof fn lemma_simulate(
    before: Seq<Instruction>,
    at: int,
    after: Seq<Instruction>,
    input: Seq<u8>,
    a: Machine,
    b: Machine,
    steps: nat,
) -> (matching: nat)
    requires
        combined_at(before, at, after),
        related(a, b, at, gap(before, at)),
        a.run(before, input, steps).halted(before),
    ensures
        b.run(after, input, matching).halted(after),
        same_outcome(a.run(before, input, steps), b.run(after, input, matching)),
    decreases steps,
{
    lemma_combined_shape(before, at, after);
    let d = gap(before, at);
    if a.halted(before) {
        0
    } else if a.counter == at {
        lemma_step_window(before, at, after, input, a, b);
        let a1 = a.step(before, input);
        let a2 = a1.step(before, input);
        assert(!a1.halted(before));
        assert(steps >= 2) by {
            if steps == 1 {
                assert(a.run(before, input, 1) == a1.run(before, input, 0));
            }
        }
        assert(a.run(before, input, steps) == a1.run(before, input, (steps - 1) as nat));
        assert(a1.run(before, input, (steps - 1) as nat) == a2.run(
            before,
            input,
            (steps - 2) as nat,
        ));
        if d == 2 {
            lemma_simulate(before, at, after, input, a2, b, (steps - 2) as nat)
        } else {
            let rest = lemma_simulate(
                before,
                at,
                after,
                input,
                a2,
                b.step(after, input),
                (steps - 2) as nat,
            );
            assert(b.run(after, input, rest + 1) == b.step(after, input).run(after, input, rest));
            rest + 1
        }
    } else {
        lemma_step_outside(before, at, after, input, a, b);
        assert(a.run(before, input, steps) == a.step(before, input).run(
            before,
            input,
            (steps - 1) as nat,
        ));
        let rest = lemma_simulate(
            before,
            at,
            after,
            input,
            a.step(before, input),
            b.step(after, input),
            (steps - 1) as nat,
        );
        assert(b.run(after, input, rest + 1) == b.step(after, input).run(after, input, rest));
        rest + 1
    }
}

/// A run of the combined program that halts is matched by a run of the
/// program that halts with the same outcome.
proof fn lemma_simulate_back(
    before: Seq<Instruction>,
    at: int,
    after: Seq<Instruction>,
    input: Seq<u8>,
    a: Machine,
    b: Machine,
    steps: nat,
) -> (matching: nat)
    requires
        combined_at(before, at, after),
        related(a, b, at, gap(before, at)),
        b.run(after, input, steps).halted(after),
    ensures
        a.run(before, input, matching).halted(before),
        same_outcome(a.run(before, input, matching), b.run(after, input, steps)),
    decreases steps, (if a.counter == at { 1int } else { 0int }),
{
    lemma_combined_shape(before, at, after);
    let d = gap(before, at);
    if a.halted(before) {
        0
    } else if a.counter == at {
        lemma_step_window(before, at, after, input, a, b);
        let a1 = a.step(before, input);
        let a2 = a1.step(before, input);
        assert(!a1.halted(before));
        let rest = if d == 2 {
            lemma_simulate_back(before, at, after, input, a2, b, steps)
        } else {
            assert(b.run(after, input, steps) == b.step(after, input).run(
                after,
                input,
                (steps - 1) as nat,
            ));
            lemma_simulate_back(
                before,
                at,
                after,
                input,
                a2,
                b.step(after, input),
                (steps - 1) as nat,
            )
        };
        assert(a.run(before, input, rest + 2) == a1.run(before, input, rest + 1));
        assert(a1.run(before, input, rest + 1) == a2.run(before, input, rest));
        rest + 2
    } else {
        lemma_step_outside(before, at, after, input, a, b);
        assert(b.run(after, input, steps) == b.step(after, input).run(
            after,
            input,
            (steps - 1) as nat,
        ));
        let rest = lemma_simulate_back(
            before,
            at,
            after,
            input,
            a.step(before, input),
            b.step(after, input),
            (steps - 1) as nat,
        );
        assert(a.run(before, input, rest + 1) == a.step(before, input).run(before, input, rest));
        rest + 1
    }
}

/// The weight of two programs in a row is the sum of their weights.
proof fn lemma_weight_concat(a: Seq<Instruction>, b: Seq<Instruction>)
    ensures
        move_weight(a + b) == move_weight(a) + move_weight(b),
    decreases b.len(),
{
    if b.len() == 0 {
        assert(a + b =~= a);
    } else {
        assert((a + b).drop_last() =~= a + b.drop_last());
        lemma_weight_concat(a, b.drop_last());
    }
}

/// A combination in a program whose move counts add up to at most
/// `usize::MAX` wraps no count and does not add to the weight.
proof fn lemma_combined_weight(before: Seq<Instruction>, at: int, after: Seq<Instruction>)
    requires
        0 <= at,
        at + 2 <= before.len(),
        combine(before[at], before[at + 1]).edits(),
        after == splice(before, at, 2, combine(before[at], before[at + 1]).replacement()),
        move_weight(before) <= usize::MAX,
    ensures
        combined_at(before, at, after),
        move_weight(after) <= move_weight(before),
{
    let front = before.subrange(0, at);
    let window = before.subrange(at, at + 2);
    let back = before.subrange(at + 2, before.len() as int);
    let with = combine(before[at], before[at + 1]).replacement();
    assert(before =~= front + window + back);
    lemma_weight_concat(front, window);
    lemma_weight_concat(front + window, back);
    lemma_weight_concat(front, with);
    lemma_weight_concat(front + with, back);
    assert(move_weight(window) == move_count(before[at]) + move_count(before[at + 1])) by {
        assert(window.drop_last() =~= seq![before[at]]);
        assert(window.last() == before[at + 1]);
        assert(seq![before[at]].drop_last() =~= Seq::<Instruction>::empty());
        assert(move_weight(seq![before[at]]) == move_count(before[at])) by {
            reveal_with_fuel(move_weight, 2);
        }
    }
    lemma_combine_keeps_effect(before[at], before[at + 1], TapeView::fresh());
    assert(move_weight(with) <= move_count(before[at]) + move_count(before[at + 1])) by {
        if with.len() == 1 {
            assert(with.drop_last() =~= Seq::<Instruction>::empty());
            reveal_with_fuel(move_weight, 2);
        }
    }
}

/// A sweep of the combining pass does not add to the weight of a program
/// whose move counts add up to at most `usize::MAX`.
proof fn lemma_sweep_weight(program: Seq<Instruction>, at: nat)
    requires
        move_weight(program) <= usize::MAX,
    ensures
        move_weight(sweep_from(&CombineInstPass, program, at)) <= move_weight(program),
    decreases program.len(), program.len() - at,
{
    lemma_combine_window();
    if at + 2 <= program.len() {
        let window = program.subrange(at as int, (at + 2) as int);
        assert(window[0] == program[at as int]);
        assert(window[1] == program[at as int + 1]);
        let change = combine(program[at as int], program[at as int + 1]);
        assert(CombineInstPass.rule(window) == change);
        if !change.edits() {
            lemma_sweep_weight(program, at + 1);
        } else {
            let next = change.apply(program, at as int, 2);
            lemma_combined_weight(program, at as int, next);
            lemma_combined_shape(program, at as int, next);
            lemma_sweep_weight(next, at);
        }
    }
}

/// A sweep of the combining pass keeps the outcome of every halting run.
proof fn lemma_sweep_keeps_outcome(
    program: Seq<Instruction>,
    at: nat,
    input: Seq<u8>,
    start: Machine,
    steps: nat,
) -> (matching: nat)
    requires
        start.counter == 0,
        start.tape.wf(),
        move_weight(program) <= usize::MAX,
        start.run(program, input, steps).halted(program),
    ensures
        start.run(sweep_from(&CombineInstPass, program, at), input, matching).halted(
            sweep_from(&CombineInstPass, program, at),
        ),
        same_outcome(
            start.run(program, input, steps),
            start.run(sweep_from(&CombineInstPass, program, at), input, matching),
        ),
    decreases program.len(), program.len() - at,
{
    lemma_combine_window();
    if at + 2 > program.len() {
        steps
    } else {
        let window = program.subrange(at as int, (at + 2) as int);
        assert(window[0] == program[at as int]);
        assert(window[1] == program[at as int + 1]);
        let change = combine(program[at as int], program[at as int + 1]);
        assert(CombineInstPass.rule(window) == change);
        if !change.edits() {
            lemma_sweep_keeps_outcome(program, at + 1, input, start, steps)
        } else {
            let next = change.apply(program, at as int, 2);
            lemma_combined_weight(program, at as int, next);
            lemma_combined_shape(program, at as int, next);
            let middle = lemma_simulate(program, at as int, next, input, start, start, steps);
            lemma_sweep_keeps_outcome(next, at, input, start, middle)
        }
    }
}

/// Optimisation keeps what a program does. Take a program whose move counts
/// add up to at most `usize::MAX`, as they do in every program parsed from
/// text, and a machine at the program's start. If the program halts within
/// `steps` steps, then the optimised program halts within the number of
/// steps given back, with the same bytes on the tape, the same pointer, the
/// same input read and the same output written. Which cells count as visited
/// may differ, and so may what the instrumentation counted.
pub proof fn lemma_optimize_keeps_outcome(
    program: Seq<Instruction>,
    input: Seq<u8>,
    start: Machine,
    steps: nat,
) -> (matching: nat)
    requires
        start.counter == 0,
        start.tape.wf(),
        move_weight(program) <= usize::MAX,
        start.run(program, input, steps).halted(program),
    ensures
        move_weight(optimized(program)) <= move_weight(program),
        start.run(optimized(program), input, matching).halted(optimized(program)),
        same_outcome(
            start.run(program, input, steps),
            start.run(optimized(program), input, matching),
        ),
    decreases program.len(),
{
    let next = sweep_from(&CombineInstPass, program, 0);
    if next.len() < program.len() {
        lemma_sweep_weight(program, 0);
        let middle = lemma_sweep_keeps_outcome(program, 0, input, start, steps);
        lemma_optimize_keeps_outcome(next, input, start, middle)
    } else {
        steps
    }
}

/// A sweep of the combining pass adds no outcome: where the swept program
/// halts, the program halts too, with the same outcome.
proof fn lemma_sweep_adds_no_outcome(
    program: Seq<Instruction>,
    at: nat,
    input: Seq<u8>,
    start: Machine,
    steps: nat,
) -> (matching: nat)
    requires
        start.counter == 0,
        start.tape.wf(),
        move_weight(program) <= usize::MAX,
        start.run(sweep_from(&CombineInstPass, program, at), input, steps).halted(
            sweep_from(&CombineInstPass, program, at),
        ),
    ensures
        start.run(program, input, matching).halted(program),
        same_outcome(
            start.run(program, input, matching),
            start.run(sweep_from(&CombineInstPass, program, at), input, steps),
        ),
    decreases program.len(), program.len() - at,
{
    lemma_combine_window();
    if at + 2 > program.len() {
        steps
    } else {
        let window = program.subrange(at as int, (at + 2) as int);
        assert(window[0] == program[at as int]);
        assert(window[1] == program[at as int + 1]);
        let change = combine(program[at as int], program[at as int + 1]);
        assert(CombineInstPass.rule(window) == change);
        if !change.edits() {
            lemma_sweep_adds_no_outcome(program, at + 1, input, start, steps)
        } else {
            let next = change.apply(program, at as int, 2);
            lemma_combined_weight(program, at as int, next);
            lemma_combined_shape(program, at as int, next);
            let middle = lemma_sweep_adds_no_outcome(next, at, input, start, steps);
            lemma_simulate_back(program, at as int, next, input, start, start, middle)
        }
    }
}

/// Optimisation adds no outcome. Take a program whose move counts add up to
/// at most `usize::MAX` and a machine at the program's start. If the
/// optimised program halts within `steps` steps, then the program halts
/// within the number of steps given back, with the same bytes on the tape,
/// the same pointer, the same input read and the same output written.
pub proof fn lemma_optimize_adds_no_outcome(
    program: Seq<Instruction>,
    input: Seq<u8>,
    start: Machine,
    steps: nat,
) -> (matching: nat)
    requires
        start.counter == 0,
        start.tape.wf(),
        move_weight(program) <= usize::MAX,
        start.run(optimized(program), input, steps).halted(optimized(program)),
    ensures
        start.run(program, input, matching).halted(program),
        same_outcome(
            start.run(program, input, matching),
            start.run(optimized(program), input, steps),
        ),
    decreases program.len(),
{
    let next = sweep_from(&CombineInstPass, program, 0);
    if next.len() < program.len() {
        lemma_sweep_weight(program, 0);
        let middle = lemma_optimize_adds_no_outcome(next, input, start, steps);
        lemma_sweep_adds_no_outcome(program, 0, input, start, middle)
    } else {
        steps
    }
}

/// The move counts of a parsed program add up to no more than the text has
/// bytes.
pub proof fn lemma_parsed_weight(bytes: Seq<u8>)
    ensures
        move_weight(parse(bytes)) <= bytes.len(),
    decreases bytes.len(),
{
    if bytes.len() > 0 {
        let rest = bytes.drop_last();
        lemma_parsed_weight(rest);
        let decoder = |byte: u8| decode(byte);
        assert(parse(bytes) == bytes.filter_map(decoder));
        assert(parse(rest) == rest.filter_map(decoder));
        match decode(bytes.last()) {
            Some(instruction) => {
                assert(parse(bytes) == parse(rest) + seq![instruction]);
                assert((parse(rest) + seq![instruction]).drop_last() =~= parse(rest));
                assert(move_count(instruction) <= 1);
            },
            None => {
                assert(parse(bytes) == parse(rest));
            },
        }
    }
}

/// Optimisation keeps what a program text does on a fresh machine: if the
/// parsed program halts, the optimised program halts with the same bytes on
/// the tape, the same pointer, the same input read and the same output
/// written.
pub proof fn lemma_optimized_text_keeps_outcome(
    bytes: Seq<u8>,
    input: Seq<u8>,
    steps: nat,
) -> (matching: nat)
    requires
        bytes.len() <= usize::MAX,
        Machine::start(Seq::empty()).run(parse(bytes), input, steps).halted(parse(bytes)),
    ensures
        Machine::start(Seq::empty()).run(optimized(parse(bytes)), input, matching).halted(
            optimized(parse(bytes)),
        ),
        same_outcome(
            Machine::start(Seq::empty()).run(parse(bytes), input, steps),
            Machine::start(Seq::empty()).run(optimized(parse(bytes)), input, matching),
        ),
{
    lemma_parsed_weight(bytes);
    lemma_optimize_keeps_outcome(parse(bytes), input, Machine::start(Seq::empty()), steps)
}

} // verus!
