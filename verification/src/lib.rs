//! A small interpreter for the eight-symbol tape language.
//!
//! Source text is parsed into a [`Program`], the [`Optimizer`] merges and
//! cancels neighbouring instructions until nothing is left to combine, and
//! the [`Interpreter`] executes the result on a [`Tape`] of 1000 byte cells
//! arranged in a ring.
//!
//! What each of these does is stated over mathematical models: a program is
//! a sequence of instructions, a tape is a sequence of cells and a pointer,
//! and execution is the function [`machine::Machine::step`]. The module
//! [`optimizer::soundness`] proves that optimisation changes nothing that a
//! program does.
//!
//! The interpreter reads from and writes to queues in memory. A caller that
//! wants to run a program against real streams hands bytes in with
//! [`Interpreter::push_input`] when [`Interpreter::awaits_input`] says so and
//! carries away what [`Interpreter::take_output`] returns.

pub mod interpreter;
pub mod machine;
pub mod optimizer;
pub mod profiler;
pub mod program;
pub mod tape;
pub mod utils;

pub use self::interpreter::Interpreter;
pub use self::optimizer::{Change, CombineInstPass, IterationReport, Optimizer, Pass, PeepholePass};
pub use self::profiler::Profiler;
pub use self::program::{Instruction, Program};
pub use self::tape::{Cell, Tape};
pub use self::utils::InsertOrPush;
