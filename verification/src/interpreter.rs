//! The execution engine: a program, a tape, a counter, and in-memory queues
//! for the bytes read and written.

use core::ops::{AddAssign, ShlAssign, ShrAssign, SubAssign};
use vstd::prelude::*;
use vstd::string::StringSliceAdditionalSpecFns;

use crate::machine::{encode, hex_digit, scan_backward, scan_forward, Machine};
use crate::profiler::Profiler;
use crate::program::{parse, Instruction, Program};
use crate::tape::{Cell, Tape};

verus! {

/// An interpreter as a mathematical value.
pub struct InterpreterView {
    /// The program's instructions.
    pub program: Seq<Instruction>,
    /// All the input handed in so far, read or not.
    pub input: Seq<u8>,
    /// What execution changes.
    pub machine: Machine,
}

impl InterpreterView {
    /// Whether execution has ended.
    pub open spec fn halted(self) -> bool {
        self.machine.halted(self.program)
    }

    /// Whether the next instruction is a read that finds the input used up.
    pub open spec fn awaits_input(self) -> bool {
        &&& !self.halted()
        &&& self.program[self.machine.counter as int] is Read
        &&& self.machine.consumed >= self.input.len()
    }

    /// The interpreter after one instruction, or as it is once halted.
    pub open spec fn step(self) -> InterpreterView {
        if self.halted() {
            self
        } else {
            InterpreterView { machine: self.machine.step(self.program, self.input), ..self }
        }
    }

    /// The interpreter after at most `steps` instructions.
    pub open spec fn run(self, steps: nat) -> InterpreterView {
        InterpreterView { machine: self.machine.run(self.program, self.input, steps), ..self }
    }
}

/// The machine: it executes its program on its tape, reads from the input it
/// was handed and appends what it writes to its output. Input that is used
/// up reads as zero. Nothing here can fail.
pub struct Interpreter {
    program: Program,
    memory: Tape,
    counter: usize,
    input: Vec<u8>,
    consumed: usize,
    output: Vec<u8>,
    profiler: Option<Profiler>,
}

impl View for Interpreter {
    type V = InterpreterView;

    closed spec fn view(&self) -> InterpreterView {
        InterpreterView {
            program: self.program@,
            input: self.input@,
            machine: Machine {
                tape: self.memory@,
                counter: self.counter as nat,
                consumed: self.consumed as nat,
                output: self.output@,
                profiler: self.profiler,
            },
        }
    }
}

/// The lower-case hexadecimal digit for a value below 16.
pub fn hex_digit_of(nibble: u8) -> (digit: u8)
    requires
        nibble < 16,
    ensures
        digit == hex_digit(nibble),
{
    if nibble < 10 {
        0x30 + nibble
    } else {
        0x61 + (nibble - 10)
    }
}

/// The bytes that writing `byte` sends: the byte itself when it is ASCII,
/// else the characters `\0x` and its two hexadecimal digits.
pub fn encode_byte(byte: u8) -> (bytes: Vec<u8>)
    ensures
        bytes@ == encode(byte),
{
    let mut bytes: Vec<u8> = Vec::new();
    if byte < 128 {
        bytes.push(byte);
    } else {
        bytes.push(0x5c);
        bytes.push(0x30);
        bytes.push(0x78);
        bytes.push(hex_digit_of(byte / 16));
        bytes.push(hex_digit_of(byte % 16));
    }
    assert(bytes@ =~= encode(byte));
    bytes
}

/// Finds the close that matches an open at `open`, by counting depth from
/// the instruction after it. `None` when the program ends first.
pub fn matching_close(program: &[Instruction], open: usize) -> (close: Option<usize>)
    requires
        open < program@.len(),
    ensures
        match close {
            Some(at) => at < program@.len() && at == scan_forward(
                program@,
                (open + 1) as nat,
                1,
            ),
            None => scan_forward(program@, (open + 1) as nat, 1) >= program@.len(),
        },
{
    let len = program.len();
    let mut at: usize = open + 1;
    let mut depth: usize = 1;
    while at < len
        invariant
            len == program@.len(),
            open < at <= program@.len(),
            1 <= depth <= at - open,
            scan_forward(program@, at as nat, depth as nat) == scan_forward(
                program@,
                (open + 1) as nat,
                1,
            ),
        decreases program@.len() - at,
    {
        match program[at] {
            Instruction::JumpIfZero => {
                depth += 1;
            },
            Instruction::JumpIfNotZero => {
                if depth == 1 {
                    return Some(at);
                }
                depth -= 1;
            },
            _ => {},
        }
        at += 1;
    }
    None
}

/// Finds the open that matches a close at `close`, by counting depth from
/// the instruction before it. `None` when the program's start comes first.
pub fn matching_open(program: &[Instruction], close: usize) -> (open: Option<usize>)
    requires
        close < program@.len(),
    ensures
        match open {
            Some(at) => at < close && at == scan_backward(program@, close - 1, 1),
            None => scan_backward(program@, close - 1, 1) < 0,
        },
{
    let mut left: usize = close;
    let mut depth: usize = 1;
    while left > 0
        invariant
            left <= close < program@.len(),
            1 <= depth <= close - left + 1,
            scan_backward(program@, left - 1, depth as nat) == scan_backward(
                program@,
                close - 1,
                1,
            ),
        decreases left,
    {
        left -= 1;
        match program[left] {
            Instruction::JumpIfNotZero => {
                depth += 1;
            },
            Instruction::JumpIfZero => {
                if depth == 1 {
                    return Some(left);
                }
                depth -= 1;
            },
            _ => {},
        }
    }
    None
}

impl Interpreter {
    /// An interpreter with no program yet, a fresh tape, the counter at 0 and
    /// no instrumentation. It will read `input` from its first byte on and
    /// append to `output`.
    pub fn new(input: Vec<u8>, output: Vec<u8>) -> (interpreter: Interpreter)
        ensures
            interpreter@ == (InterpreterView {
                program: Seq::empty(),
                input: input@,
                machine: Machine::start(output@),
            }),
    {
        Interpreter {
            program: Program::new(),
            memory: Tape::new(),
            counter: 0,
            input,
            consumed: 0,
            output,
            profiler: None,
        }
    }

    /// The program.
    pub fn program(&self) -> (program: &Program)
        ensures
            program@ == self@.program,
    {
        &self.program
    }

    /// The program, for replacing or editing it. Nothing else changes.
    pub fn program_mut(&mut self) -> (program: &mut Program)
        ensures
            program@ == old(self)@.program,
            final(self)@ == (InterpreterView { program: final(program)@, ..old(self)@ }),
    {
        &mut self.program
    }

    /// The tape.
    pub fn memory(&self) -> (memory: &Tape)
        ensures
            memory@ == self@.machine.tape,
    {
        &self.memory
    }

    /// The tape, for replacing or editing it. Nothing else changes.
    pub fn memory_mut(&mut self) -> (memory: &mut Tape)
        ensures
            memory@ == old(self)@.machine.tape,
            final(self)@ == (InterpreterView {
                machine: Machine { tape: final(memory)@, ..old(self)@.machine },
                ..old(self)@
            }),
    {
        &mut self.memory
    }

    /// Index of the next instruction.
    pub fn counter(&self) -> (counter: usize)
        ensures
            counter == self@.machine.counter,
    {
        self.counter
    }

    /// All the input handed in so far, read or not.
    pub fn input(&self) -> (input: &Vec<u8>)
        ensures
            input@ == self@.input,
    {
        &self.input
    }

    /// Number of input bytes read so far.
    pub fn consumed(&self) -> (consumed: usize)
        ensures
            consumed == self@.machine.consumed,
    {
        self.consumed
    }

    /// The bytes written so far and not yet taken.
    pub fn output(&self) -> (output: &Vec<u8>)
        ensures
            output@ == self@.machine.output,
    {
        &self.output
    }

    /// The instrumentation, where there is any.
    pub fn profiler(&self) -> (profiler: Option<Profiler>)
        ensures
            profiler == self@.machine.profiler,
    {
        self.profiler
    }

    /// Installs or removes the instrumentation. Nothing else changes.
    pub fn set_profiler(&mut self, profiler: Option<Profiler>)
        ensures
            final(self)@ == (InterpreterView {
                machine: Machine { profiler, ..old(self)@.machine },
                ..old(self)@
            }),
    {
        self.profiler = profiler;
    }

    /// Whether execution has ended: the counter stands past the last
    /// instruction.
    pub fn halted(&self) -> (halted: bool)
        ensures
            halted == self@.halted(),
    {
        self.counter >= self.program.len()
    }

    /// The instruction that runs next.
    pub fn current_instruction(&self) -> (instruction: &Instruction)
        requires
            !self@.halted(),
        ensures
            *instruction == self@.program[self@.machine.counter as int],
    {
        &self.program.as_slice()[self.counter]
    }

    /// The byte under the pointer.
    pub fn current_cell(&self) -> (byte: &u8)
        ensures
            *byte == self@.machine.tape.value(),
    {
        match self.memory.current_cell() {
            Cell::Value(byte) => byte,
            Cell::Untouched => &0,
        }
    }

    /// The byte under the pointer, for writing. This counts as a visit of
    /// the cell; nothing else changes.
    pub fn current_cell_mut(&mut self) -> (byte: &mut u8)
        ensures
            *byte == old(self)@.machine.tape.value(),
            final(self)@ == (InterpreterView {
                machine: Machine {
                    tape: old(self)@.machine.tape.store(*final(byte)),
                    ..old(self)@.machine
                },
                ..old(self)@
            }),
    {
        let cell = self.memory.current_cell_mut();
        cell.touch();
        match cell {
            Cell::Value(byte) => byte,
            Cell::Untouched => vstd::pervasive::unreached(),
        }
    }

    /// Whether the next instruction is a read that finds the input used up,
    /// so that it would read zero.
    pub fn awaits_input(&self) -> (awaits: bool)
        ensures
            awaits == self@.awaits_input(),
    {
        if self.halted() {
            false
        } else {
            match self.current_instruction() {
                Instruction::Read => self.consumed >= self.input.len(),
                _ => false,
            }
        }
    }

    /// Hands in one more byte of input, behind those already there.
    pub fn push_input(&mut self, byte: u8)
        ensures
            final(self)@ == (InterpreterView {
                input: old(self)@.input.push(byte),
                ..old(self)@
            }),
    {
        self.input.push(byte);
    }

    /// Takes the bytes written so far, leaving the output empty.
    pub fn take_output(&mut self) -> (bytes: Vec<u8>)
        ensures
            bytes@ == old(self)@.machine.output,
            final(self)@ == (InterpreterView {
                machine: Machine { output: Seq::empty(), ..old(self)@.machine },
                ..old(self)@
            }),
    {
        let mut bytes: Vec<u8> = Vec::new();
        core::mem::swap(&mut bytes, &mut self.output);
        bytes
    }

    /// Reads one byte into the cell under the pointer: the next byte of the
    /// input, or zero when the input is used up.
    pub fn get_char(&mut self)
        ensures
            final(self)@ == (InterpreterView {
                machine: old(self)@.machine.read(old(self)@.input),
                ..old(self)@
            }),
    {
        let mut byte: u8 = 0;
        if self.consumed < self.input.len() {
            byte = self.input[self.consumed];
            self.consumed += 1;
        }
        self.memory.current_cell_mut().set_value(byte);
    }

    /// Writes the byte under the pointer: as it is when it is ASCII, else as
    /// the characters `\0x` and its two hexadecimal digits.
    pub fn put_char(&mut self)
        ensures
            final(self)@ == (InterpreterView {
                machine: old(self)@.machine.write(),
                ..old(self)@
            }),
    {
        let byte = *self.current_cell();
        let mut bytes = encode_byte(byte);
        self.output.append(&mut bytes);
    }

    /// Executes the next instruction, unless execution has ended. Returns
    /// whether it has ended after that. Execution ends when the counter
    /// leaves the program, and also when a loop instruction that has to jump
    /// finds no partner: a program with unbalanced loops is not rejected, it
    /// ends there, without an error.
    pub fn step(&mut self) -> (halted: bool)
        ensures
            final(self)@ == old(self)@.step(),
            halted == final(self)@.halted(),
    {
        let len = self.program.len();
        if self.counter >= len {
            return true;
        }
        let instruction = *self.current_instruction();
        if let Some(profiler) = &mut self.profiler {
            profiler.record(instruction);
        }
        let mut next = self.counter + 1;
        match instruction {
            Instruction::Increment(delta) => self.memory.add_assign(delta),
            Instruction::Decrement(delta) => self.memory.sub_assign(delta),
            Instruction::MoveLeft(steps) => self.memory.shl_assign(steps),
            Instruction::MoveRight(steps) => self.memory.shr_assign(steps),
            Instruction::Read => self.get_char(),
            Instruction::Write => self.put_char(),
            Instruction::JumpIfZero => {
                if *self.current_cell() == 0 {
                    next = match matching_close(self.program.as_slice(), self.counter) {
                        Some(close) => close + 1,
                        None => self.program.len(),
                    };
                }
            },
            Instruction::JumpIfNotZero => {
                if *self.current_cell() != 0 {
                    next = match matching_open(self.program.as_slice(), self.counter) {
                        Some(open) => open + 1,
                        None => self.program.len(),
                    };
                }
            },
        }
        self.counter = next;
        self.halted()
    }

    /// Executes until execution ends or `steps` instructions have run,
    /// whichever comes first. Returns whether execution has ended. The
    /// machine sets no limit of its own: a program that never halts runs for
    /// as long as its caller keeps asking.
    pub fn run(&mut self, steps: u64) -> (halted: bool)
        ensures
            final(self)@ == old(self)@.run(steps as nat),
            halted == final(self)@.halted(),
    {
        let mut left = steps;
        let mut halted = self.halted();
        while left > 0 && !halted
            invariant
                halted == self@.halted(),
                self@.run(left as nat) == old(self)@.run(steps as nat),
            decreases left,
        {
            halted = self.step();
            left -= 1;
        }
        halted
    }
}

impl Clone for Interpreter {
    fn clone(&self) -> (interpreter: Interpreter)
        ensures
            interpreter@ == self@,
    {
        Interpreter {
            program: self.program.clone(),
            memory: self.memory.clone(),
            counter: self.counter,
            input: self.input.clone(),
            consumed: self.consumed,
            output: self.output.clone(),
            profiler: self.profiler,
        }
    }
}

impl core::str::FromStr for Interpreter {
    type Err = core::convert::Infallible;

    /// An interpreter for the program that `s` denotes, with no input and
    /// nothing written yet.
    fn from_str(s: &str) -> (r: Result<Interpreter, core::convert::Infallible>)
        ensures
            r is Ok,
            r->Ok_0@ == (InterpreterView {
                program: parse(s.spec_bytes()),
                input: Seq::empty(),
                machine: Machine::start(Seq::empty()),
            }),
    {
        let mut interpreter = Interpreter::new(Vec::new(), Vec::new());
        interpreter.program = Program::parse(s);
        Ok(interpreter)
    }
}

} // verus!
