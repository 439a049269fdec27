//! Chunks of bytecode.

use vstd::prelude::*;
use crate::value::Value;

verus! {

/// Represents an opcode. Takes up a byte.
#[derive(Debug, Clone, Copy, PartialEq, Eq)]
pub enum OpCode {
    Ldc,
    Ret,
}

impl OpCode {
    /// The byte that stands for the opcode.
    pub open spec fn byte(self) -> u8 {
        match self {
            OpCode::Ldc => 0,
            OpCode::Ret => 1,
        }
    }

    /// The opcode that a byte stands for, if it stands for one.
    pub open spec fn of_byte(byte: u8) -> Option<OpCode> {
        if byte == 0 {
            Some(OpCode::Ldc)
        } else if byte == 1 {
            Some(OpCode::Ret)
        } else {
            None
        }
    }

    /// Decodes a byte.
    pub fn from_u8(byte: u8) -> (opcode: Option<OpCode>)
        ensures
            opcode == OpCode::of_byte(byte),
    {
        if byte == 0 {
            Some(OpCode::Ldc)
        } else if byte == 1 {
            Some(OpCode::Ret)
        } else {
            None
        }
    }

    /// Decoding undoes encoding, and only the bytes of opcodes decode.
    pub proof fn law_byte_round_trip(opcode: OpCode, byte: u8)
        ensures
            OpCode::of_byte(opcode.byte()) == Some(opcode),
            OpCode::of_byte(byte) == Some(opcode) <==> byte == opcode.byte(),
    {
    }
}

/// `u8` and `OpCode` implement this trait.
pub trait ToByteCode {
    /// The byte that the value is written as.
    spec fn byte_code(&self) -> u8;

    fn to_byte_code(&self) -> (byte: u8)
        ensures
            byte == self.byte_code(),
    ;
}

impl ToByteCode for OpCode {
    open spec fn byte_code(&self) -> u8 {
        self.byte()
    }

    fn to_byte_code(&self) -> (byte: u8) {
        match self {
            OpCode::Ldc => 0,
            OpCode::Ret => 1,
        }
    }
}

impl ToByteCode for u8 {
    open spec fn byte_code(&self) -> u8 {
        *self
    }

    fn to_byte_code(&self) -> (byte: u8) {
        *self
    }
}

/// A sequence of bytecode with, for each byte, the source line it came
/// from, and the constants that the code refers to.
pub struct Chunk {
    pub(crate) code: Vec<u8>,
    /// Source code positions for each byte in `code`.
    pub(crate) lines: Vec<usize>,
    pub(crate) constants: Vec<Value>,
}

/// The mathematical content of a [`Chunk`].
pub struct ChunkView {
    pub code: Seq<u8>,
    pub lines: Seq<usize>,
    pub constants: Seq<Value>,
}

impl ChunkView {
    /// The invariant of a chunk: every byte has its line.
    pub open spec fn wf(self) -> bool {
        self.code.len() == self.lines.len()
    }
}

impl View for Chunk {
    type V = ChunkView;

    closed spec fn view(&self) -> ChunkView {
        ChunkView { code: self.code@, lines: self.lines@, constants: self.constants@ }
    }
}

impl Chunk {
    pub fn new() -> (chunk: Self)
        ensures
            chunk@.code == Seq::<u8>::empty(),
            chunk@.lines == Seq::<usize>::empty(),
            chunk@.constants == Seq::<Value>::empty(),
            chunk@.wf(),
    {
        Self { code: Vec::new(), lines: Vec::new(), constants: Vec::new() }
    }

    /// Write data to the `Chunk`.
    pub fn write_chunk<T: ToByteCode>(&mut self, opcode: T, line: usize)
        requires
            old(self)@.wf(),
        ensures
            final(self)@.code == old(self)@.code.push(opcode.byte_code()),
            final(self)@.lines == old(self)@.lines.push(line),
            final(self)@.constants == old(self)@.constants,
            final(self)@.wf(),
    {
        self.code.push(opcode.to_byte_code());
        self.lines.push(line);
    }

    /// Add a constant to the constant table.
    /// Returns the index of the added constant.
    pub fn add_constant(&mut self, value: Value) -> (index: u8)
        requires
            old(self)@.constants.len() < 256,
        ensures
            index == old(self)@.constants.len(),
            final(self)@.constants == old(self)@.constants.push(value),
            final(self)@.code == old(self)@.code,
            final(self)@.lines == old(self)@.lines,
    {
        self.constants.push(value);
        let loc = self.constants.len() - 1;
        loc as u8
    }

    /// Add a constant to the constant table if a byte can still index it.
    /// Returns the index of the added constant; without room, nothing is
    /// added.
    pub fn try_add_constant(&mut self, value: Value) -> (index: Option<u8>)
        ensures
            old(self)@.constants.len() < 256 ==> index == Some(old(self)@.constants.len() as u8)
                && final(self)@.constants == old(self)@.constants.push(value),
            old(self)@.constants.len() >= 256 ==> index is None && final(self)@.constants == old(
                self,
            )@.constants,
            final(self)@.code == old(self)@.code,
            final(self)@.lines == old(self)@.lines,
    {
        if self.constants.len() < 256 {
            Some(self.add_constant(value))
        } else {
            None
        }
    }

    /// The bytecode.
    pub fn code(&self) -> (code: &Vec<u8>)
        ensures
            code@ == self@.code,
    {
        &self.code
    }

    /// The source line of each byte of the bytecode.
    pub fn lines(&self) -> (lines: &Vec<usize>)
        ensures
            lines@ == self@.lines,
    {
        &self.lines
    }

    /// The constant table.
    pub fn constants(&self) -> (constants: &Vec<Value>)
        ensures
            constants@ == self@.constants,
    {
        &self.constants
    }
}

impl Default for Chunk {
    fn default() -> (chunk: Self)
        ensures
            chunk@.code == Seq::<u8>::empty(),
            chunk@.lines == Seq::<usize>::empty(),
            chunk@.constants == Seq::<Value>::empty(),
            chunk@.wf(),
    {
        Self::new()
    }
}

} // verus!
