//! Bytecode chunks: instruction bytes, the source line of each byte, and a
//! constant pool.
use vstd::prelude::*;
use crate::value::{init_value_array, write_value_array, ValueArray};

verus! {

/// The instruction set. `OP_CONSTANT` takes one operand byte, the index of a
/// constant; the others take none. An opcode is encoded as its position in
/// this list.
#[derive(Clone, Copy, Debug, PartialEq, Eq, Structural)]
#[allow(non_camel_case_types)]
pub enum OpCode {
    OP_CONSTANT,
    OP_ADD,
    OP_SUBSTRACT,
    OP_MULTIPLY,
    OP_DIVIDE,
    OP_NEGATE,
    OP_RETURN,
}

/// The opcode that `byte` encodes, if any.
pub open spec fn decode(byte: u8) -> Option<OpCode> {
    if byte == 0 {
        Some(OpCode::OP_CONSTANT)
    } else if byte == 1 {
        Some(OpCode::OP_ADD)
    } else if byte == 2 {
        Some(OpCode::OP_SUBSTRACT)
    } else if byte == 3 {
        Some(OpCode::OP_MULTIPLY)
    } else if byte == 4 {
        Some(OpCode::OP_DIVIDE)
    } else if byte == 5 {
        Some(OpCode::OP_NEGATE)
    } else if byte == 6 {
        Some(OpCode::OP_RETURN)
    } else {
        None
    }
}

impl OpCode {
    /// Decodes one byte; bytes that encode no opcode give `None`.
    pub fn from_byte(byte: u8) -> (r: Option<OpCode>)
        ensures
            r == decode(byte),
    {
        match byte {
            0 => Some(OpCode::OP_CONSTANT),
            1 => Some(OpCode::OP_ADD),
            2 => Some(OpCode::OP_SUBSTRACT),
            3 => Some(OpCode::OP_MULTIPLY),
            4 => Some(OpCode::OP_DIVIDE),
            5 => Some(OpCode::OP_NEGATE),
            6 => Some(OpCode::OP_RETURN),
            _ => None,
        }
    }
}

pub struct Chunk<V> {
    code: Vec<u8>,
    lines: Vec<usize>,
    constants: ValueArray<V>,
}

impl<V: Copy> Chunk<V> {
    /// The instruction bytes.
    pub closed spec fn code_view(&self) -> Seq<u8> {
        self.code@
    }

    /// The source line of each instruction byte.
    pub closed spec fn lines_view(&self) -> Seq<usize> {
        self.lines@
    }

    /// The constant pool, in insertion order.
    pub closed spec fn constants_view(&self) -> Seq<V> {
        self.constants@
    }

    /// The line table is as long as the instruction stream.
    pub open spec fn wf(&self) -> bool {
        self.lines_view().len() == self.code_view().len()
    }

    /// Number of instruction bytes.
    pub fn count(&self) -> (r: usize)
        ensures
            r == self.code_view().len(),
    {
        self.code.len()
    }

    /// Decodes the byte at `offset` as an opcode; `None` when it encodes none.
    pub fn get(&self, offset: usize) -> (r: Option<OpCode>)
        requires
            offset < self.code_view().len(),
        ensures
            r == decode(self.code_view()[offset as int]),
    {
        OpCode::from_byte(self.code[offset])
    }

    /// The raw byte at `offset`, as read for an operand.
    pub fn get_byte(&self, offset: usize) -> (r: u8)
        requires
            offset < self.code_view().len(),
        ensures
            r == self.code_view()[offset as int],
    {
        self.code[offset]
    }

    /// The source line of the byte at `offset`.
    pub fn get_line(&self, offset: usize) -> (r: usize)
        requires
            self.wf(),
            offset < self.code_view().len(),
        ensures
            r == self.lines_view()[offset as int],
    {
        self.lines[offset]
    }

    /// The constant at `index` of the pool.
    pub fn get_constant_value(&self, index: usize) -> (r: V)
        requires
            index < self.constants_view().len(),
        ensures
            r == self.constants_view()[index as int],
    {
        self.constants.get(index)
    }

    /// Number of constants in the pool.
    pub fn constant_count(&self) -> (r: usize)
        ensures
            r == self.constants_view().len(),
    {
        self.constants.count()
    }
}

/// An empty chunk.
pub fn init_chunk<V: Copy>() -> (r: Chunk<V>)
    ensures
        r.wf(),
        r.code_view() == Seq::<u8>::empty(),
        r.lines_view() == Seq::<usize>::empty(),
        r.constants_view() == Seq::<V>::empty(),
{
    Chunk { code: Vec::new(), lines: Vec::new(), constants: init_value_array() }
}

/// Appends one instruction byte, produced by source line `line`.
pub fn write_chunk<V: Copy>(chunk: &mut Chunk<V>, byte: u8, line: usize)
    requires
        old(chunk).wf(),
    ensures
        final(chunk).wf(),
        final(chunk).code_view() == old(chunk).code_view().push(byte),
        final(chunk).lines_view() == old(chunk).lines_view().push(line),
        final(chunk).constants_view() == old(chunk).constants_view(),
{
    chunk.code.push(byte);
    chunk.lines.push(line);
}

/// Appends `value` to the constant pool and returns its index.
pub fn add_constant<V: Copy>(chunk: &mut Chunk<V>, value: V) -> (r: usize)
    requires
        old(chunk).wf(),
    ensures
        final(chunk).wf(),
        r == old(chunk).constants_view().len(),
        final(chunk).constants_view() == old(chunk).constants_view().push(value),
        final(chunk).code_view() == old(chunk).code_view(),
        final(chunk).lines_view() == old(chunk).lines_view(),
{
    write_value_array(&mut chunk.constants, value);
    chunk.constants.count() - 1
}

/// `s` after appending the elements of `xs` one at a time, in order: what the
/// pool of a chunk becomes after one `add_constant` call per element, and its
/// line table after one `write_chunk` call per line.
pub open spec fn appended<T>(s: Seq<T>, xs: Seq<T>) -> Seq<T>
    decreases xs.len(),
{
    if xs.len() == 0 {
        s
    } else {
        appended(s, xs.drop_last()).push(xs.last())
    }
}

proof fn lemma_appended<T>(s: Seq<T>, xs: Seq<T>)
    ensures
        appended(s, xs) == s + xs,
    decreases xs.len(),
{
    if xs.len() > 0 {
        lemma_appended(s, xs.drop_last());
        assert(s + xs =~= (s + xs.drop_last()).push(xs.last()));
    }
}

/// Constants added one after another are kept unchanged and in order: the
/// value added by the `i`-th call sits at the index that call returned, the
/// pool's earlier length plus `i`, and the earlier values stay where they were.
pub proof fn lemma_constant_pool_round_trip<V>(pool: Seq<V>, added: Seq<V>)
    ensures
        appended(pool, added).len() == pool.len() + added.len(),
        forall|i: int| 0 <= i < pool.len() ==> #[trigger] appended(pool, added)[i] == pool[i],
        forall|i: int|
            0 <= i < added.len() ==> #[trigger] appended(pool, added)[pool.len() + i] == added[i],
{
    lemma_appended(pool, added);
}

/// Each instruction byte keeps the line it was written with: after one
/// `write_chunk` call per entry of `written`, the line at the offset of the
/// `k`-th new byte is the `k`-th line passed, and earlier lines are kept.
pub proof fn lemma_line_table(lines: Seq<usize>, written: Seq<usize>)
    ensures
        appended(lines, written).len() == lines.len() + written.len(),
        forall|i: int| 0 <= i < lines.len() ==> #[trigger] appended(lines, written)[i] == lines[i],
        forall|k: int|
            0 <= k < written.len() ==> #[trigger] appended(lines, written)[lines.len() + k]
                == written[k],
{
    lemma_appended(lines, written);
}

} // verus!
