//! Decoding for the disassembler: what one instruction of a chunk is, where
//! it came from, and where the next one starts. Rendering it as text is left
//! to the caller.
use vstd::prelude::*;
use crate::chunk::{decode, Chunk, OpCode};

verus! {

/// One decoded instruction.
#[derive(Clone, Copy, Debug, PartialEq, Eq)]
pub struct InstructionInfo {
    /// The opcode, or `None` for a byte that encodes none.
    pub opcode: Option<OpCode>,
    /// The constant-index operand of `OP_CONSTANT`, when present.
    pub operand: Option<u8>,
    /// The source line of the opcode byte.
    pub line: usize,
    /// The previous byte came from the same line.
    pub same_line: bool,
    /// Offset of the next instruction.
    pub next: usize,
}

/// The instruction that starts at `offset` of `chunk`, as the machine would
/// fetch it: `OP_CONSTANT` with its operand byte present spans two bytes,
/// anything else one.
#[verifier::opaque]
pub open spec fn instruction_at<V: Copy>(chunk: &Chunk<V>, offset: int) -> InstructionInfo {
    let code = chunk.code_view();
    let lines = chunk.lines_view();
    let opcode = decode(code[offset]);
    let with_operand = opcode == Some(OpCode::OP_CONSTANT) && offset + 1 < code.len();
    InstructionInfo {
        opcode,
        operand: if with_operand {
            Some(code[offset + 1])
        } else {
            None
        },
        line: lines[offset],
        same_line: offset > 0 && lines[offset] == lines[offset - 1],
        next: (if with_operand {
            offset + 2
        } else {
            offset + 1
        }) as usize,
    }
}

/// Offset at which the `k`-th of the decoded instructions `infos` starts.
pub open spec fn start_of(infos: Seq<InstructionInfo>, k: int) -> int {
    if k == 0 {
        0
    } else {
        infos[k - 1].next as int
    }
}

/// Decodes the instruction at `offset`, as the machine would fetch it.
pub fn dissassemble_instruction<V: Copy>(chunk: &Chunk<V>, offset: usize) -> (r: InstructionInfo)
    requires
        chunk.wf(),
        offset < chunk.code_view().len(),
    ensures
        r == instruction_at(chunk, offset as int),
        offset < r.next <= chunk.code_view().len(),
{
    reveal(instruction_at);
    let line = chunk.get_line(offset);
    let same_line = offset > 0 && line == chunk.get_line(offset - 1);
    let opcode = chunk.get(offset);
    let count = chunk.count();
    if opcode == Some(OpCode::OP_CONSTANT) && offset + 1 < count {
        InstructionInfo {
            opcode,
            operand: Some(chunk.get_byte(offset + 1)),
            line,
            same_line,
            next: offset + 2,
        }
    } else {
        InstructionInfo { opcode, operand: None, line, same_line, next: offset + 1 }
    }
}

/// Decodes every instruction of `chunk`, in order: the first starts at offset
/// zero, each next one where the previous ended, and the last ends at the end
/// of the chunk.
pub fn dissassemble_chunk<V: Copy>(chunk: &Chunk<V>) -> (r: Vec<InstructionInfo>)
    requires
        chunk.wf(),
    ensures
        (r.len() == 0) == (chunk.code_view().len() == 0),
        r.len() <= chunk.code_view().len(),
        forall|k: int|
            0 <= k < r.len() ==> start_of(r@, k) < chunk.code_view().len() && #[trigger] r@[k]
                == instruction_at(chunk, start_of(r@, k)),
        r.len() > 0 ==> r@.last().next == chunk.code_view().len(),
{
    let mut out: Vec<InstructionInfo> = Vec::new();
    let mut offset: usize = 0;
    while offset < chunk.count()
        invariant
            chunk.wf(),
            offset <= chunk.code_view().len(),
            out.len() <= offset,
            out.len() == 0 ==> offset == 0,
            out.len() > 0 ==> out@.last().next == offset,
            forall|k: int|
                0 <= k < out.len() ==> start_of(out@, k) < chunk.code_view().len()
                    && #[trigger] out@[k] == instruction_at(chunk, start_of(out@, k)),
        decreases chunk.code_view().len() - offset,
    {
        let info = dissassemble_instruction(chunk, offset);
        let ghost before = out@;
        out.push(info);
        proof {
            assert forall|k: int| 0 <= k < out.len() implies start_of(out@, k) < chunk.code_view().len()
                && #[trigger] out@[k] == instruction_at(chunk, start_of(out@, k)) by {
                if k < before.len() {
                    assert(start_of(out@, k) == start_of(before, k));
                }
            }
        }
        offset = info.next;
    }
    out
}

} // verus!
