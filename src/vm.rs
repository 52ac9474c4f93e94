//! The stack machine that runs chunks.
//!
//! Values are opaque to the machine. The caller supplies the arithmetic:
//! `binary(op, left, right)` for the four binary opcodes and `negate(v)` for
//! `OP_NEGATE`. Control flow never depends on values, so whether a run ends
//! well depends on the bytes and the size of the constant pool alone.
use vstd::prelude::*;
use crate::chunk::{decode, Chunk, OpCode};

verus! {

/// Capacity of the evaluation stack.
pub const STACK_MAX: usize = 256;

/// How a run ended.
#[derive(Clone, Copy, Debug, PartialEq, Eq, Structural)]
pub enum InterpretResult {
    InterpretOk,
    InterpretCompileError,
    InterpretRuntimeError,
}

/// Outcome of running `code` from instruction offset `pc` with `depth` values
/// on the stack. Fetching past the end, an unknown opcode, a missing operand
/// byte, an operand that names no constant, a pop from too few values and a
/// push onto a full stack are runtime errors; `OP_RETURN` on a non-empty
/// stack ends the run well.
pub open spec fn run_outcome(code: Seq<u8>, n_constants: nat, pc: int, depth: nat) -> InterpretResult
    decreases code.len() - pc,
{
    if pc < 0 || pc >= code.len() {
        InterpretResult::InterpretRuntimeError
    } else {
        match decode(code[pc]) {
            None => InterpretResult::InterpretRuntimeError,
            Some(op) => if op == OpCode::OP_CONSTANT {
                if pc + 1 < code.len() && (code[pc + 1] as nat) < n_constants && depth
                    < STACK_MAX {
                    run_outcome(code, n_constants, pc + 2, depth + 1)
                } else {
                    InterpretResult::InterpretRuntimeError
                }
            } else if op == OpCode::OP_RETURN {
                if depth >= 1 {
                    InterpretResult::InterpretOk
                } else {
                    InterpretResult::InterpretRuntimeError
                }
            } else if op == OpCode::OP_NEGATE {
                if depth >= 1 {
                    run_outcome(code, n_constants, pc + 1, depth)
                } else {
                    InterpretResult::InterpretRuntimeError
                }
            } else {
                if depth >= 2 {
                    run_outcome(code, n_constants, pc + 1, (depth - 1) as nat)
                } else {
                    InterpretResult::InterpretRuntimeError
                }
            },
        }
    }
}

/// Running `code` from `pc` on `stack` can return `out`: each instruction acts
/// on the stack as the instruction set says, a binary opcode pops the right
/// operand and then the left one and pushes a result that `binary` may give
/// for `(op, left, right)`, `OP_NEGATE` pushes one that `negate` may give, and
/// `OP_RETURN` returns the top of the stack.
pub open spec fn runs_to<V, B: Fn(OpCode, V, V) -> V, N: Fn(V) -> V>(
    code: Seq<u8>,
    constants: Seq<V>,
    binary: B,
    negate: N,
    pc: int,
    stack: Seq<V>,
    out: V,
) -> bool
    decreases code.len() - pc,
{
    if pc < 0 || pc >= code.len() {
        false
    } else {
        match decode(code[pc]) {
            None => false,
            Some(op) => if op == OpCode::OP_CONSTANT {
                &&& pc + 1 < code.len()
                &&& (code[pc + 1] as int) < constants.len()
                &&& stack.len() < STACK_MAX
                &&& runs_to(
                    code,
                    constants,
                    binary,
                    negate,
                    pc + 2,
                    stack.push(constants[code[pc + 1] as int]),
                    out,
                )
            } else if op == OpCode::OP_RETURN {
                stack.len() >= 1 && out == stack.last()
            } else if op == OpCode::OP_NEGATE {
                &&& stack.len() >= 1
                &&& exists|r: V|
                    call_ensures(negate, (stack.last(),), r) && runs_to(
                        code,
                        constants,
                        binary,
                        negate,
                        pc + 1,
                        stack.drop_last().push(r),
                        out,
                    )
            } else {
                &&& stack.len() >= 2
                &&& exists|r: V|
                    call_ensures(binary, (op, stack[stack.len() - 2], stack.last()), r) && runs_to(
                        code,
                        constants,
                        binary,
                        negate,
                        pc + 1,
                        stack.drop_last().drop_last().push(r),
                        out,
                    )
            },
        }
    }
}

/// A virtual machine: the chunk it last ran, an instruction cursor, an
/// evaluation stack of at most `STACK_MAX` values, and the value that the last
/// run returned.
pub struct VM<V> {
    chunk: Option<Chunk<V>>,
    offset: usize,
    stack: Vec<V>,
    result: Option<V>,
}

/// A fresh machine, idle: no chunk loaded, cursor at zero, empty stack, no
/// returned value. Each call builds a machine of its own.
pub fn init_vm<V: Copy>() -> (r: VM<V>)
    ensures
        r.is_idle(),
        r.returned().is_none(),
{
    VM::new()
}

impl<V: Copy> VM<V> {
    /// The value that the last run returned, if it ended well.
    pub closed spec fn returned(&self) -> Option<V> {
        self.result
    }

    /// No chunk loaded, cursor at zero, empty stack, no returned value.
    pub closed spec fn is_idle(&self) -> bool {
        &&& self.chunk.is_none()
        &&& self.offset == 0
        &&& self.stack@.len() == 0
        &&& self.result.is_none()
    }

    fn new() -> (r: VM<V>)
        ensures
            r.is_idle(),
            r.chunk.is_none(),
            r.offset == 0,
            r.stack@ == Seq::<V>::empty(),
            r.returned().is_none(),
    {
        VM { chunk: None, offset: 0, stack: Vec::new(), result: None }
    }

    /// The value that the last run returned, if it ended well.
    pub fn returned_value(&self) -> (r: Option<V>)
        ensures
            r == self.returned(),
    {
        self.result
    }

    /// Loads `chunk` and runs it from its first byte on an empty stack. The
    /// outcome is `run_outcome` of its bytes; when it is `InterpretOk` the
    /// returned value is one that the chunk can return, and otherwise there is
    /// none.
    pub fn interpret<B: Fn(OpCode, V, V) -> V, N: Fn(V) -> V>(
        &mut self,
        chunk: Chunk<V>,
        binary: B,
        negate: N,
    ) -> (r: InterpretResult)
        requires
            forall|op: OpCode, a: V, b: V| call_requires(binary, (op, a, b)),
            forall|a: V| call_requires(negate, (a,)),
        ensures
            r == run_outcome(chunk.code_view(), chunk.constants_view().len(), 0, 0),
            final(self).returned().is_some() == (r == InterpretResult::InterpretOk),
            final(self).returned().is_some() ==> runs_to(
                chunk.code_view(),
                chunk.constants_view(),
                binary,
                negate,
                0,
                Seq::empty(),
                final(self).returned().unwrap(),
            ),
            ({
                let code = chunk.code_view();
                code.len() > 0 && decode(code[0]) is Some && decode(code[0])->0
                    != OpCode::OP_CONSTANT ==> r == InterpretResult::InterpretRuntimeError
            }),
    {
        proof {
            if chunk.code_view().len() > 0 && decode(chunk.code_view()[0]) is Some && decode(
                chunk.code_view()[0],
            )->0 != OpCode::OP_CONSTANT {
                lemma_leading_pop_underflows(chunk.code_view(), chunk.constants_view().len());
            }
        }
        self.offset = 0;
        self.stack = Vec::new();
        self.result = None;
        let r = self.run(&chunk, binary, negate);
        self.chunk = Some(chunk);
        r
    }

    /// The fetch-decode-execute loop.
    fn run<B: Fn(OpCode, V, V) -> V, N: Fn(V) -> V>(
        &mut self,
        chunk: &Chunk<V>,
        binary: B,
        negate: N,
    ) -> (r: InterpretResult)
        requires
            old(self).offset == 0,
            old(self).stack@ == Seq::<V>::empty(),
            old(self).result.is_none(),
            forall|op: OpCode, a: V, b: V| call_requires(binary, (op, a, b)),
            forall|a: V| call_requires(negate, (a,)),
        ensures
            r == run_outcome(chunk.code_view(), chunk.constants_view().len(), 0, 0),
            final(self).result.is_some() == (r == InterpretResult::InterpretOk),
            final(self).result.is_some() ==> runs_to(
                chunk.code_view(),
                chunk.constants_view(),
                binary,
                negate,
                0,
                Seq::empty(),
                final(self).result.unwrap(),
            ),
            final(self).chunk == old(self).chunk,
    {
        let ghost code = chunk.code_view();
        let ghost constants = chunk.constants_view();
        loop
            invariant
                self.offset <= code.len(),
                self.stack.len() <= STACK_MAX,
                self.result.is_none(),
                self.chunk == old(self).chunk,
                forall|op: OpCode, a: V, b: V| call_requires(binary, (op, a, b)),
                forall|a: V| call_requires(negate, (a,)),
                code == chunk.code_view(),
                constants == chunk.constants_view(),
                run_outcome(code, constants.len(), self.offset as int, self.stack.len() as nat)
                    == run_outcome(code, constants.len(), 0, 0),
                forall|out: V|
                    runs_to(code, constants, binary, negate, self.offset as int, self.stack@, out)
                        ==> runs_to(code, constants, binary, negate, 0, Seq::empty(), out),
            decreases code.len() - self.offset,
        {
            let ghost pc = self.offset as int;
            let ghost before = self.stack@;
            let byte = match self.read_byte(chunk) {
                Some(b) => b,
                None => return InterpretResult::InterpretRuntimeError,
            };
            let op = match OpCode::from_byte(byte) {
                Some(op) => op,
                None => return InterpretResult::InterpretRuntimeError,
            };
            match op {
                OpCode::OP_CONSTANT => {
                    let constant = match self.read_constant(chunk) {
                        Some(v) => v,
                        None => return InterpretResult::InterpretRuntimeError,
                    };
                    if !self.push(constant) {
                        return InterpretResult::InterpretRuntimeError;
                    }
                },
                OpCode::OP_NEGATE => {
                    let value = match self.pop() {
                        Some(v) => v,
                        None => return InterpretResult::InterpretRuntimeError,
                    };
                    let r = negate(value);
                    self.push(r);
                    assert(self.stack@ == before.drop_last().push(r));
                },
                OpCode::OP_RETURN => {
                    let value = match self.pop() {
                        Some(v) => v,
                        None => return InterpretResult::InterpretRuntimeError,
                    };
                    self.result = Some(value);
                    return InterpretResult::InterpretOk;
                },
                _ => {
                    if self.stack.len() < 2 {
                        return InterpretResult::InterpretRuntimeError;
                    }
                    let b = match self.pop() {
                        Some(v) => v,
                        None => return InterpretResult::InterpretRuntimeError,
                    };
                    let a = match self.pop() {
                        Some(v) => v,
                        None => return InterpretResult::InterpretRuntimeError,
                    };
                    let r = binary(op, a, b);
                    self.push(r);
                    assert(self.stack@ == before.drop_last().drop_last().push(r));
                },
            }
        }
    }

    /// Reads the byte at the cursor and moves past it; `None` at the end. It
    /// serves for opcodes and operands alike, so it hands back the raw byte:
    /// `run` decodes opcodes, and a byte that encodes none is its fault.
    fn read_byte(&mut self, chunk: &Chunk<V>) -> (r: Option<u8>)
        ensures
            old(self).offset < chunk.code_view().len() ==> r == Some(
                chunk.code_view()[old(self).offset as int],
            ) && final(self).offset == old(self).offset + 1,
            old(self).offset >= chunk.code_view().len() ==> r.is_none() && final(self).offset
                == old(self).offset,
            final(self).stack == old(self).stack,
            final(self).result == old(self).result,
            final(self).chunk == old(self).chunk,
    {
        if self.offset < chunk.count() {
            let byte = chunk.get_byte(self.offset);
            self.offset += 1;
            Some(byte)
        } else {
            None
        }
    }

    /// Reads a constant-index operand and resolves it against the pool;
    /// `None` when the operand is missing or names no constant.
    fn read_constant(&mut self, chunk: &Chunk<V>) -> (r: Option<V>)
        ensures
            ({
                let code = chunk.code_view();
                let pc = old(self).offset as int;
                if pc < code.len() && (code[pc] as int) < chunk.constants_view().len() {
                    r == Some(chunk.constants_view()[code[pc] as int]) && final(self).offset
                        == pc + 1
                } else {
                    r.is_none()
                }
            }),
            final(self).offset <= old(self).offset + 1,
            final(self).stack == old(self).stack,
            final(self).result == old(self).result,
            final(self).chunk == old(self).chunk,
    {
        let index = match self.read_byte(chunk) {
            Some(b) => b as usize,
            None => return None,
        };
        if index < chunk.constant_count() {
            Some(chunk.get_constant_value(index))
        } else {
            None
        }
    }

    /// Pushes `value`; on a full stack reports overflow with `false` and
    /// leaves the stack as it was.
    fn push(&mut self, value: V) -> (pushed: bool)
        ensures
            pushed == (old(self).stack.len() < STACK_MAX),
            pushed ==> final(self).stack@ == old(self).stack@.push(value),
            !pushed ==> final(self).stack@ == old(self).stack@,
            final(self).offset == old(self).offset,
            final(self).result == old(self).result,
            final(self).chunk == old(self).chunk,
    {
        if self.stack.len() >= STACK_MAX {
            return false;
        }
        self.stack.push(value);
        true
    }

    /// Pops the top value; on an empty stack reports underflow with `None` and
    /// leaves the stack as it was.
    fn pop(&mut self) -> (r: Option<V>)
        ensures
            old(self).stack.len() > 0 ==> r == Some(old(self).stack@.last()) && final(self).stack@
                == old(self).stack@.drop_last(),
            old(self).stack.len() == 0 ==> r.is_none() && final(self).stack@ == old(self).stack@,
            final(self).offset == old(self).offset,
            final(self).result == old(self).result,
            final(self).chunk == old(self).chunk,
    {
        self.stack.pop()
    }
}

/// A chunk whose first instruction pops from the stack (a binary opcode,
/// `OP_NEGATE` or `OP_RETURN`) underflows the empty stack: the run is a
/// runtime error, whatever follows and whatever the pool holds.
pub proof fn lemma_leading_pop_underflows(code: Seq<u8>, n_constants: nat)
    requires
        code.len() > 0,
        decode(code[0]) is Some,
        decode(code[0])->0 != OpCode::OP_CONSTANT,
    ensures
        run_outcome(code, n_constants, 0, 0) == InterpretResult::InterpretRuntimeError,
{
}

} // verus!
