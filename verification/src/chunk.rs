//! The compiled program unit: instruction bytes, constant pool, line table.

use vstd::prelude::*;

use crate::vm::FaultKind;
use crate::vm::RuntimeError;
use crate::vm::CompileError;

verus! {

/// A numeric value, carried as the 64-bit IEEE-754 encoding of the double it
/// denotes.  The library moves values around unchanged; the caller of the
/// virtual machine performs the binary arithmetic on them.
pub type Value = u64;

/// The constant pool holds at most this many entries: an instruction refers
/// to a constant by a single operand byte.
pub const MAX_CONSTANTS: usize = 256;

/// One instruction's identity.  The byte encoding is fixed:
/// `Constant = 0`, `Add = 1`, `Subtract = 2`, `Multiply = 3`, `Divide = 4`,
/// `Negate = 5`, `Return = 6`.
#[derive(Copy, Clone, Debug, PartialEq, Eq, Structural)]
pub enum Opcode {
    Constant,
    Add,
    Subtract,
    Multiply,
    Divide,
    Negate,
    Return,
}

impl Opcode {
    /// The byte that encodes this opcode in a chunk's code sequence.
    pub open spec fn spec_byte(self) -> u8 {
        match self {
            Opcode::Constant => 0,
            Opcode::Add => 1,
            Opcode::Subtract => 2,
            Opcode::Multiply => 3,
            Opcode::Divide => 4,
            Opcode::Negate => 5,
            Opcode::Return => 6,
        }
    }

    /// What decoding a byte yields: the opcode it encodes, or an
    /// invalid-instruction fault for any byte outside the instruction set.
    pub open spec fn spec_decode(value: u8) -> Result<Opcode, RuntimeError> {
        if value == 0 {
            Ok(Opcode::Constant)
        } else if value == 1 {
            Ok(Opcode::Add)
        } else if value == 2 {
            Ok(Opcode::Subtract)
        } else if value == 3 {
            Ok(Opcode::Multiply)
        } else if value == 4 {
            Ok(Opcode::Divide)
        } else if value == 5 {
            Ok(Opcode::Negate)
        } else if value == 6 {
            Ok(Opcode::Return)
        } else {
            Err(RuntimeError { kind: FaultKind::InvalidInstruction })
        }
    }

    /// Checked decoding: a byte outside the enumerated range is a recoverable
    /// fault, never an assumption violation.
    pub fn try_from(value: u8) -> (r: Result<Opcode, RuntimeError>)
        ensures
            r == Opcode::spec_decode(value),
            r is Ok <==> value <= 6,
            r is Ok ==> r->Ok_0.spec_byte() == value,
    {
        match value {
            0 => Ok(Opcode::Constant),
            1 => Ok(Opcode::Add),
            2 => Ok(Opcode::Subtract),
            3 => Ok(Opcode::Multiply),
            4 => Ok(Opcode::Divide),
            5 => Ok(Opcode::Negate),
            6 => Ok(Opcode::Return),
            _ => Err(RuntimeError { kind: FaultKind::InvalidInstruction }),
        }
    }
}

/// Law: the byte an opcode encodes to decodes back to that opcode, so the
/// encoding is stable and unambiguous.
pub proof fn lemma_opcode_round_trip(op: Opcode)
    ensures
        Opcode::spec_decode(op.spec_byte()) == Ok::<Opcode, RuntimeError>(op),
{
}

/// A compiled program: an ordered instruction-byte sequence, a constant pool,
/// and one source line per code byte.  Grown only by [`Chunk::write`] and
/// [`Chunk::add_constant`]; cleared only as a whole by [`Chunk::free`].
#[derive(Debug, Clone)]
pub struct Chunk {
    pub code: Vec<u8>,
    pub constants: Vec<Value>,
    pub lines: Vec<usize>,
}

impl Chunk {
    /// The chunk's invariants: the line table runs in lockstep with the code
    /// bytes, and the constant pool stays addressable by one operand byte.
    pub open spec fn wf(self) -> bool {
        &&& self.lines@.len() == self.code@.len()
        &&& self.constants@.len() <= MAX_CONSTANTS
    }

    /// An empty chunk: all three sequences empty.
    pub fn new() -> (r: Chunk)
        ensures
            r.code@ == Seq::<u8>::empty(),
            r.constants@ == Seq::<Value>::empty(),
            r.lines@ == Seq::<usize>::empty(),
            r.wf(),
    {
        Chunk { code: Vec::new(), constants: Vec::new(), lines: Vec::new() }
    }

    /// Appends one code byte together with the source line it came from, so
    /// that the line table keeps exactly one entry per code byte.
    pub fn write(&mut self, byte: u8, line: usize)
        ensures
            final(self).code@ == old(self).code@.push(byte),
            final(self).lines@ == old(self).lines@.push(line),
            final(self).constants@ == old(self).constants@,
            old(self).wf() ==> final(self).wf(),
    {
        self.code.push(byte);
        self.lines.push(line);
    }

    /// Appends a value to the constant pool and returns its index.  Fails
    /// with a compile-time error when the pool already holds
    /// [`MAX_CONSTANTS`] entries, since the index must fit in one byte.
    pub fn add_constant(&mut self, value: Value) -> (r: Result<u8, CompileError>)
        ensures
            final(self).code@ == old(self).code@,
            final(self).lines@ == old(self).lines@,
            old(self).constants@.len() < MAX_CONSTANTS ==> {
                &&& r == Ok::<u8, CompileError>(old(self).constants@.len() as u8)
                &&& final(self).constants@ == old(self).constants@.push(value)
                &&& final(self).constants@[r->Ok_0 as int] == value
            },
            old(self).constants@.len() >= MAX_CONSTANTS ==> {
                &&& r == Err::<u8, CompileError>(CompileError)
                &&& final(self).constants@ == old(self).constants@
            },
            old(self).wf() ==> final(self).wf(),
    {
        if self.constants.len() >= MAX_CONSTANTS {
            return Err(CompileError);
        }
        let index = self.constants.len() as u8;
        self.constants.push(value);
        Ok(index)
    }

    /// Bulk release: clears all three sequences together.  Idempotent, and a
    /// no-op on an already-empty chunk.
    pub fn free(&mut self)
        ensures
            final(self).code@ == Seq::<u8>::empty(),
            final(self).constants@ == Seq::<Value>::empty(),
            final(self).lines@ == Seq::<usize>::empty(),
            final(self).wf(),
    {
        self.code.clear();
        self.constants.clear();
        self.lines.clear();
    }
}

} // verus!
