//! What the machine does, as mathematics: one step of execution, the search
//! for a loop's partner, and runs of a given number of steps.

use vstd::prelude::*;

use crate::profiler::Profiler;
use crate::program::Instruction;
use crate::tape::TapeView;

verus! {

/// Everything that execution changes.
pub struct Machine {
    /// The memory.
    pub tape: TapeView,
    /// Index of the next instruction.
    pub counter: nat,
    /// Number of input bytes read so far.
    pub consumed: nat,
    /// The bytes written so far.
    pub output: Seq<u8>,
    /// The instrumentation, where there is any. It counts what runs and
    /// decides nothing.
    pub profiler: Option<Profiler>,
}

/// The lower-case hexadecimal digit for a value below 16.
pub open spec fn hex_digit(nibble: u8) -> u8 {
    if nibble < 10 {
        (0x30 + nibble) as u8
    } else {
        (0x61 + nibble - 10) as u8
    }
}

/// The bytes that writing `byte` sends: the byte itself when it is ASCII,
/// else the five characters of `\0x` and its two hexadecimal digits.
pub open spec fn encode(byte: u8) -> Seq<u8> {
    if byte < 128 {
        seq![byte]
    } else {
        seq![0x5cu8, 0x30u8, 0x78u8, hex_digit(byte / 16), hex_digit(byte % 16)]
    }
}

/// Scanning forward from `from` with `depth` loops open: the position of the
/// close that brings the depth to zero, or the program's length if the
/// program ends first. Each open on the way adds one to the depth, each
/// close takes one off.
pub open spec fn scan_forward(program: Seq<Instruction>, from: nat, depth: nat) -> nat
    decreases program.len() - from,
{
    if from >= program.len() {
        program.len()
    } else {
        match program[from as int] {
            Instruction::JumpIfZero => scan_forward(program, from + 1, depth + 1),
            Instruction::JumpIfNotZero => if depth <= 1 {
                from
            } else {
                scan_forward(program, from + 1, (depth - 1) as nat)
            },
            _ => scan_forward(program, from + 1, depth),
        }
    }
}

/// Scanning backward from `from` with `depth` loops to close: the position
/// of the open that brings the depth to zero, or -1 if the program's start
/// comes first. Each close on the way adds one to the depth, each open takes
/// one off.
pub open spec fn scan_backward(program: Seq<Instruction>, from: int, depth: nat) -> int
    decreases from + 1,
{
    if from < 0 || from >= program.len() {
        -1
    } else {
        match program[from] {
            Instruction::JumpIfNotZero => scan_backward(program, from - 1, depth + 1),
            Instruction::JumpIfZero => if depth <= 1 {
                from
            } else {
                scan_backward(program, from - 1, (depth - 1) as nat)
            },
            _ => scan_backward(program, from - 1, depth),
        }
    }
}

/// The byte that the next read delivers: the next input byte, or zero once
/// the input is used up.
pub open spec fn next_input(input: Seq<u8>, consumed: nat) -> u8 {
    if consumed < input.len() {
        input[consumed as int]
    } else {
        0
    }
}

impl Machine {
    /// The machine before anything ran, with `output` already written.
    pub open spec fn start(output: Seq<u8>) -> Machine {
        Machine { tape: TapeView::fresh(), counter: 0, consumed: 0, output, profiler: None }
    }

    /// Whether execution has ended: the counter stands past the last
    /// instruction.
    pub open spec fn halted(self, program: Seq<Instruction>) -> bool {
        self.counter >= program.len()
    }

    /// The machine after reading one byte into the cell under the pointer.
    pub open spec fn read(self, input: Seq<u8>) -> Machine {
        Machine {
            tape: self.tape.store(next_input(input, self.consumed)),
            consumed: if self.consumed < input.len() {
                self.consumed + 1
            } else {
                self.consumed
            },
            ..self
        }
    }

    /// The machine after writing the byte under the pointer.
    pub open spec fn write(self) -> Machine {
        Machine { output: self.output + encode(self.tape.value()), ..self }
    }

    /// Where a loop's open at the counter sends the counter: past the
    /// matching close when the byte under the pointer is zero, or to the
    /// program's end when there is no such close; else to the next
    /// instruction.
    pub open spec fn after_open(self, program: Seq<Instruction>) -> nat {
        if self.tape.value() == 0 {
            let close = scan_forward(program, self.counter + 1, 1);
            if close < program.len() {
                close + 1
            } else {
                program.len()
            }
        } else {
            self.counter + 1
        }
    }

    /// Where a loop's close at the counter sends the counter: just past the
    /// matching open when the byte under the pointer is not zero, or to the
    /// program's end when there is no such open; else to the next
    /// instruction.
    pub open spec fn after_close(self, program: Seq<Instruction>) -> nat {
        if self.tape.value() != 0 {
            let open = scan_backward(program, self.counter - 1, 1);
            if open >= 0 {
                (open + 1) as nat
            } else {
                program.len()
            }
        } else {
            self.counter + 1
        }
    }

    /// The machine with one more execution of `instruction` counted, where
    /// it carries instrumentation.
    pub open spec fn tally(self, instruction: Instruction) -> Machine {
        Machine {
            profiler: match self.profiler {
                Some(profiler) => Some(profiler.tallied(instruction)),
                None => None,
            },
            ..self
        }
    }

    /// The machine after executing the instruction at the counter. Meant for
    /// a machine that has not halted.
    pub open spec fn step(self, program: Seq<Instruction>, input: Seq<u8>) -> Machine {
        self.tally(program[self.counter as int]).execute(program, input)
    }

    /// The effect of the instruction at the counter on memory, counter,
    /// input and output.
    pub open spec fn execute(self, program: Seq<Instruction>, input: Seq<u8>) -> Machine {
        let next = self.counter + 1;
        match program[self.counter as int] {
            Instruction::Increment(delta) => Machine {
                tape: self.tape.plus(delta),
                counter: next,
                ..self
            },
            Instruction::Decrement(delta) => Machine {
                tape: self.tape.minus(delta),
                counter: next,
                ..self
            },
            Instruction::MoveLeft(steps) => Machine {
                tape: self.tape.shift_left(steps as nat),
                counter: next,
                ..self
            },
            Instruction::MoveRight(steps) => Machine {
                tape: self.tape.shift_right(steps as nat),
                counter: next,
                ..self
            },
            Instruction::Read => Machine { counter: next, ..self.read(input) },
            Instruction::Write => Machine { counter: next, ..self.write() },
            Instruction::JumpIfZero => Machine { counter: self.after_open(program), ..self },
            Instruction::JumpIfNotZero => Machine { counter: self.after_close(program), ..self },
        }
    }

    /// The machine after at most `steps` steps: execution stops early once
    /// the machine has halted.
    pub open spec fn run(self, program: Seq<Instruction>, input: Seq<u8>, steps: nat) -> Machine
        decreases steps,
    {
        if steps == 0 || self.halted(program) {
            self
        } else {
            self.step(program, input).run(program, input, (steps - 1) as nat)
        }
    }
}

/// Running in two goes is running in one: `first` steps and then `second`
/// more are `first + second` steps. So a caller may run a machine step by
/// step, or in bursts of any size, and arrive at the same place.
pub proof fn lemma_run_in_bursts(
    machine: Machine,
    program: Seq<Instruction>,
    input: Seq<u8>,
    first: nat,
    second: nat,
)
    ensures
        machine.run(program, input, first).run(program, input, second) == machine.run(
            program,
            input,
            first + second,
        ),
    decreases first,
{
    if first > 0 && !machine.halted(program) {
        lemma_run_in_bursts(
            machine.step(program, input),
            program,
            input,
            (first - 1) as nat,
            second,
        );
    } else if machine.halted(program) {
        assert(machine.run(program, input, second) == machine);
        assert(machine.run(program, input, first + second) == machine);
    }
}

/// Instrumentation decides nothing: a machine runs the same with it,
/// without it, or with other counts in it.
pub proof fn lemma_instrumentation_is_inert(
    machine: Machine,
    profiler: Option<Profiler>,
    program: Seq<Instruction>,
    input: Seq<u8>,
    steps: nat,
)
    ensures
        (Machine { profiler, ..machine }).run(program, input, steps).tape == machine.run(
            program,
            input,
            steps,
        ).tape,
        (Machine { profiler, ..machine }).run(program, input, steps).counter == machine.run(
            program,
            input,
            steps,
        ).counter,
        (Machine { profiler, ..machine }).run(program, input, steps).consumed == machine.run(
            program,
            input,
            steps,
        ).consumed,
        (Machine { profiler, ..machine }).run(program, input, steps).output == machine.run(
            program,
            input,
            steps,
        ).output,
    decreases steps,
{
    let other = Machine { profiler, ..machine };
    if steps > 0 && !machine.halted(program) {
        let next = machine.step(program, input);
        let other_next = other.step(program, input);
        assert(other_next == (Machine { profiler: other_next.profiler, ..next }));
        lemma_instrumentation_is_inert(
            next,
            other_next.profiler,
            program,
            input,
            (steps - 1) as nat,
        );
    }
}

} // verus!
