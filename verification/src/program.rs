//! Instructions and programs: the eight-symbol source format and the two
//! representations a program passes through.

use vstd::prelude::*;
use vstd::slice::slice_to_vec;
use vstd::string::StringSliceAdditionalSpecFns;

verus! {

/// One instruction of the machine. Arithmetic and movement carry a magnitude,
/// which is 1 in freshly parsed text and grows as neighbours are merged. The
/// two loop instructions carry no target: their partner is found when they
/// execute.
#[derive(Clone, Copy, Debug, PartialEq, Eq, Structural)]
pub enum Instruction {
    MoveRight(usize),
    MoveLeft(usize),
    Increment(u8),
    Decrement(u8),
    Write,
    Read,
    /// Opens a loop: skips past the matching close when the current cell is zero.
    JumpIfZero,
    /// Closes a loop: returns to the matching open when the current cell is not zero.
    JumpIfNotZero,
}

/// The source symbol `+`.
pub const SYM_INCREMENT: u8 = 0x2b;

/// The source symbol `-`.
pub const SYM_DECREMENT: u8 = 0x2d;

/// The source symbol `.`.
pub const SYM_WRITE: u8 = 0x2e;

/// The source symbol `,`.
pub const SYM_READ: u8 = 0x2c;

/// The source symbol `>`.
pub const SYM_RIGHT: u8 = 0x3e;

/// The source symbol `<`.
pub const SYM_LEFT: u8 = 0x3c;

/// The source symbol `[`.
pub const SYM_OPEN: u8 = 0x5b;

/// The source symbol `]`.
pub const SYM_CLOSE: u8 = 0x5d;

/// The instruction that a source byte stands for, if it is one of the eight
/// symbols `+ - . , > < [ ]`.
pub open spec fn decode(byte: u8) -> Option<Instruction> {
    if byte == SYM_INCREMENT {
        Some(Instruction::Increment(1))
    } else if byte == SYM_DECREMENT {
        Some(Instruction::Decrement(1))
    } else if byte == SYM_WRITE {
        Some(Instruction::Write)
    } else if byte == SYM_READ {
        Some(Instruction::Read)
    } else if byte == SYM_RIGHT {
        Some(Instruction::MoveRight(1))
    } else if byte == SYM_LEFT {
        Some(Instruction::MoveLeft(1))
    } else if byte == SYM_OPEN {
        Some(Instruction::JumpIfZero)
    } else if byte == SYM_CLOSE {
        Some(Instruction::JumpIfNotZero)
    } else {
        None
    }
}

/// The program that a source text denotes: its symbols in order, every other
/// byte dropped.
pub open spec fn parse(bytes: Seq<u8>) -> Seq<Instruction> {
    bytes.filter_map(|byte: u8| decode(byte))
}

/// Executable form of [`decode`].
pub fn decode_byte(byte: u8) -> (r: Option<Instruction>)
    ensures
        r == decode(byte),
{
    if byte == SYM_INCREMENT {
        Some(Instruction::Increment(1))
    } else if byte == SYM_DECREMENT {
        Some(Instruction::Decrement(1))
    } else if byte == SYM_WRITE {
        Some(Instruction::Write)
    } else if byte == SYM_READ {
        Some(Instruction::Read)
    } else if byte == SYM_RIGHT {
        Some(Instruction::MoveRight(1))
    } else if byte == SYM_LEFT {
        Some(Instruction::MoveLeft(1))
    } else if byte == SYM_OPEN {
        Some(Instruction::JumpIfZero)
    } else if byte == SYM_CLOSE {
        Some(Instruction::JumpIfNotZero)
    } else {
        None
    }
}

/// A sequence of instructions, either still growable (`Raw`) or frozen at a
/// fixed size (`Optimized`). Both hold the same kind of content; the view is
/// that content.
#[derive(Debug)]
pub enum Program {
    Raw(Vec<Instruction>),
    Optimized(Box<[Instruction]>),
}

impl View for Program {
    type V = Seq<Instruction>;

    open spec fn view(&self) -> Seq<Instruction> {
        match self {
            Program::Raw(ops) => ops@,
            Program::Optimized(ops) => ops@,
        }
    }
}

/// `Vec::into_boxed_slice`: the box holds the vector's elements, in order.
#[verifier::external_body]
fn into_boxed_slice(ops: Vec<Instruction>) -> (frozen: Box<[Instruction]>)
    ensures
        frozen@ == ops@,
{
    ops.into_boxed_slice()
}

impl Program {
    /// The empty growable program.
    pub fn new() -> (p: Program)
        ensures
            p is Raw,
            p@ == Seq::<Instruction>::empty(),
    {
        Program::Raw(Vec::new())
    }

    /// Parses source bytes. Every input is a program: the eight symbols are
    /// kept in order, each with magnitude 1, and all other bytes are skipped.
    pub fn from_bytes(bytes: &[u8]) -> (p: Program)
        ensures
            p is Raw,
            p@ == parse(bytes@),
    {
        let mut ops: Vec<Instruction> = Vec::new();
        let mut i: usize = 0;
        while i < bytes.len()
            invariant
                i <= bytes@.len(),
                ops@ == parse(bytes@.take(i as int)),
            decreases bytes@.len() - i,
        {
            proof {
                bytes@.lemma_filter_map_take_succ(|byte: u8| decode(byte), i as int);
            }
            if let Some(instruction) = decode_byte(bytes[i]) {
                ops.push(instruction);
            }
            i += 1;
        }
        assert(bytes@.take(i as int) == bytes@);
        Program::Raw(ops)
    }

    /// Parses source text; see [`Program::from_bytes`].
    pub fn parse(s: &str) -> (p: Program)
        ensures
            p is Raw,
            p@ == parse(s.spec_bytes()),
    {
        Program::from_bytes(s.as_bytes())
    }

    /// Number of instructions.
    pub fn len(&self) -> (n: usize)
        ensures
            n == self@.len(),
    {
        match self {
            Program::Raw(ops) => ops.len(),
            Program::Optimized(ops) => ops.len(),
        }
    }

    /// The instructions as a slice, whichever the representation.
    pub fn as_slice(&self) -> (s: &[Instruction])
        ensures
            s@ == self@,
    {
        match self {
            Program::Raw(ops) => ops.as_slice(),
            Program::Optimized(ops) => &**ops,
        }
    }

    /// The growable representation, for editing. A frozen program is first
    /// copied back into a growable one; the content is the same either way.
    pub fn as_raw(&mut self) -> (ops: &mut Vec<Instruction>)
        ensures
            ops@ == old(self)@,
            *final(self) == Program::Raw(*final(ops)),
    {
        if let Program::Optimized(frozen) = self {
            *self = Program::Raw(slice_to_vec(&**frozen));
        }
        match self {
            Program::Raw(ops) => ops,
            Program::Optimized(_) => vstd::pervasive::unreached(),
        }
    }

    /// Freezes the program. A program that is already frozen is returned as it is.
    pub fn into_optimized(self) -> (p: Program)
        ensures
            p is Optimized,
            p@ == self@,
            self is Optimized ==> p == self,
    {
        match self {
            Program::Raw(ops) => Program::Optimized(into_boxed_slice(ops)),
            frozen => frozen,
        }
    }
}

impl Default for Program {
    fn default() -> (p: Program)
        ensures
            p is Raw,
            p@ == Seq::<Instruction>::empty(),
    {
        Program::new()
    }
}

impl Clone for Program {
    /// A copy in the same representation with the same content.
    fn clone(&self) -> (p: Program)
        ensures
            p@ == self@,
            p is Raw <==> self is Raw,
    {
        match self {
            Program::Raw(ops) => Program::Raw(slice_to_vec(ops.as_slice())),
            Program::Optimized(ops) => Program::Optimized(into_boxed_slice(slice_to_vec(&**ops))),
        }
    }
}

impl core::ops::Deref for Program {
    type Target = [Instruction];

    fn deref(&self) -> (s: &[Instruction])
        ensures
            s@ == self@,
    {
        self.as_slice()
    }
}

impl core::str::FromStr for Program {
    type Err = core::convert::Infallible;

    fn from_str(s: &str) -> (r: Result<Program, core::convert::Infallible>)
        ensures
            r is Ok,
            r->Ok_0 is Raw,
            r->Ok_0@ == parse(s.spec_bytes()),
    {
        Ok(Program::parse(s))
    }
}

} // verus!
