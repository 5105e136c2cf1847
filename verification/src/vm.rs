//! The stack-based execution engine and its error taxonomy.

use vstd::prelude::*;

use crate::chunk::Chunk;
use crate::chunk::MAX_CONSTANTS;
use crate::chunk::Opcode;
use crate::chunk::Value;

verus! {

/// The value stack holds at most this many slots.
pub const STACK_MAX: usize = 256;

/// The sign bit of a 64-bit IEEE-754 double: negation flips exactly this bit.
pub const SIGN_BIT: u64 = 0x8000_0000_0000_0000;

/// What negating a value yields: the same double with its sign flipped.
pub open spec fn negated(v: Value) -> Value {
    v ^ SIGN_BIT
}

/// Why a run aborted mid-chunk.
#[derive(Copy, Clone, Debug, PartialEq, Eq, Structural)]
pub enum FaultKind {
    /// A fetched byte does not encode any instruction, or the fetch cursor
    /// ran past the end of the code.
    InvalidInstruction,
    /// A `Constant` instruction's operand byte is missing or does not index
    /// the constant pool.
    InvalidConstant,
    /// A push onto a full stack.
    StackOverflow,
    /// A pop from an empty stack.
    StackUnderflow,
}

/// A program was rejected before execution began.
#[derive(Copy, Clone, Debug, PartialEq, Eq, Structural)]
pub struct CompileError;

/// Execution aborted mid-chunk; the machine's state for that call is invalid
/// and must be discarded.
#[derive(Copy, Clone, Debug, PartialEq, Eq, Structural)]
pub struct RuntimeError {
    pub kind: FaultKind,
}

/// The one error value an `interpret` call can produce.
#[derive(Copy, Clone, Debug, PartialEq, Eq, Structural)]
pub enum InterpretError {
    CompileError(CompileError),
    RuntimeError(RuntimeError),
}

impl CompileError {
    /// The error's display text.
    pub fn message(&self) -> (r: String)
        ensures
            r@ == "CompileError"@,
    {
        "CompileError".to_owned()
    }
}

impl RuntimeError {
    /// The error's display text.
    pub fn message(&self) -> (r: String)
        ensures
            r@ == "RuntimeError"@,
    {
        "RuntimeError".to_owned()
    }
}

impl InterpretError {
    /// The error's display text: that of the error it carries.
    pub fn message(&self) -> (r: String)
        ensures
            self is CompileError ==> r@ == "CompileError"@,
            self is RuntimeError ==> r@ == "RuntimeError"@,
    {
        match self {
            InterpretError::CompileError(e) => e.message(),
            InterpretError::RuntimeError(e) => e.message(),
        }
    }
}

/// Where a call to [`VirtualMachine::run`] stopped.
///
/// The machine performs no binary arithmetic itself: on `Add`, `Subtract`,
/// `Multiply` or `Divide` it pops the two operands and pauses, handing them
/// to the caller, who computes the result and pushes it back before running
/// on.  On `Return` it pops the program's result and completes.
#[derive(Copy, Clone, Debug, PartialEq, Eq, Structural)]
pub enum RunAction {
    /// The machine met the binary instruction carried here, with operands
    /// `a` and `b` in push order: the caller computes `a OP b`, pushes it,
    /// and calls `run` again.
    Binary(Opcode, Value, Value),
    /// A `Return` instruction executed: the carried value is the program's
    /// result.
    Return(Value),
}

/// A machine configuration together with the outcome of running from it:
/// the cursor and stack left behind, and what stopped the run.
pub struct RunEnd {
    pub ip: int,
    pub stack: Seq<Value>,
    pub out: Result<RunAction, RuntimeError>,
}

/// The fetch-decode-execute loop, stated as a function of the chunk and the
/// starting configuration.  Each step fetches the byte at `ip`, advances past
/// it, decodes, and dispatches; the recursion carries on through `Constant`
/// and `Negate` and stops at a binary instruction, at `Return`, or at a
/// fault.  This is the single source of truth for instruction widths: a
/// `Constant` occupies two bytes, every other instruction one.
pub open spec fn spec_run(code: Seq<u8>, constants: Seq<Value>, ip: int, stack: Seq<Value>) -> RunEnd
    decreases code.len() - ip,
{
    if !(0 <= ip < code.len()) {
        RunEnd { ip, stack, out: Err(RuntimeError { kind: FaultKind::InvalidInstruction }) }
    } else {
        let byte = code[ip];
        if byte == 0 {
            if !(ip + 1 < code.len()) {
                RunEnd { ip: ip + 1, stack, out: Err(RuntimeError { kind: FaultKind::InvalidConstant }) }
            } else {
                let index = code[ip + 1];
                if index >= constants.len() {
                    RunEnd { ip: ip + 2, stack, out: Err(RuntimeError { kind: FaultKind::InvalidConstant }) }
                } else if stack.len() >= STACK_MAX {
                    RunEnd { ip: ip + 2, stack, out: Err(RuntimeError { kind: FaultKind::StackOverflow }) }
                } else {
                    spec_run(code, constants, ip + 2, stack.push(constants[index as int]))
                }
            }
        } else if 1 <= byte <= 4 {
            if stack.len() < 2 {
                RunEnd { ip: ip + 1, stack, out: Err(RuntimeError { kind: FaultKind::StackUnderflow }) }
            } else {
                RunEnd {
                    ip: ip + 1,
                    stack: stack.drop_last().drop_last(),
                    out: Ok(RunAction::Binary(
                        Opcode::spec_decode(byte)->Ok_0,
                        stack[stack.len() - 2],
                        stack[stack.len() - 1],
                    )),
                }
            }
        } else if byte == 5 {
            if stack.len() == 0 {
                RunEnd { ip: ip + 1, stack, out: Err(RuntimeError { kind: FaultKind::StackUnderflow }) }
            } else {
                spec_run(code, constants, ip + 1, stack.update(stack.len() - 1, negated(stack.last())))
            }
        } else if byte == 6 {
            if stack.len() == 0 {
                RunEnd { ip: ip + 1, stack, out: Err(RuntimeError { kind: FaultKind::StackUnderflow }) }
            } else {
                RunEnd { ip: ip + 1, stack: stack.drop_last(), out: Ok(RunAction::Return(stack.last())) }
            }
        } else {
            RunEnd { ip: ip + 1, stack, out: Err(RuntimeError { kind: FaultKind::InvalidInstruction }) }
        }
    }
}

/// A stack-based execution engine: an instruction cursor and a value stack
/// of at most [`STACK_MAX`] slots.  It borrows a chunk only for the duration
/// of each call and retains no reference to it.
#[derive(Debug)]
pub struct VirtualMachine {
    ip: usize,
    stack: Vec<Value>,
}

impl VirtualMachine {
    /// The machine's validity: the stack never outgrows its capacity.
    /// Established by [`VirtualMachine::new`] and preserved by every method.
    pub open spec fn wf(self) -> bool {
        self.spec_stack().len() <= STACK_MAX
    }

    /// The instruction cursor: an offset into the running chunk's code.
    pub closed spec fn spec_ip(self) -> int {
        self.ip as int
    }

    /// The value stack, bottom first.
    pub closed spec fn spec_stack(self) -> Seq<Value> {
        self.stack@
    }

    /// A machine ready to run: empty stack, cursor at the start.
    pub fn new() -> (r: VirtualMachine)
        ensures
            r.spec_ip() == 0,
            r.spec_stack() == Seq::<Value>::empty(),
    {
        VirtualMachine { ip: 0, stack: Vec::new() }
    }

    /// Establishes the stack invariant: the stack is empty and the cursor is
    /// back at the start, ready for a fresh chunk.
    pub fn init(&mut self)
        ensures
            final(self).spec_ip() == 0,
            final(self).spec_stack() == Seq::<Value>::empty(),
    {
        self.ip = 0;
        self.reset_stack();
    }

    /// The cursor's current offset: where the next fetch happens.  A tracer
    /// hands it to the disassembler to render the instruction about to run.
    pub fn offset(&self) -> (r: usize)
        ensures
            r as int == self.spec_ip(),
    {
        self.ip
    }

    fn reset_stack(&mut self)
        ensures
            final(self).spec_ip() == old(self).spec_ip(),
            final(self).spec_stack() == Seq::<Value>::empty(),
    {
        self.stack.clear();
    }

    /// Pushes a value; a push onto a full stack is a stack-overflow fault
    /// and leaves the machine unchanged.
    pub fn push(&mut self, value: Value) -> (r: Result<(), RuntimeError>)
        ensures
            final(self).spec_ip() == old(self).spec_ip(),
            old(self).spec_stack().len() < STACK_MAX ==> {
                &&& r == Ok::<(), RuntimeError>(())
                &&& final(self).spec_stack() == old(self).spec_stack().push(value)
            },
            old(self).spec_stack().len() >= STACK_MAX ==> {
                &&& r == Err::<(), RuntimeError>(RuntimeError { kind: FaultKind::StackOverflow })
                &&& final(self).spec_stack() == old(self).spec_stack()
            },
    {
        if self.stack.len() >= STACK_MAX {
            return Err(RuntimeError { kind: FaultKind::StackOverflow });
        }
        self.stack.push(value);
        Ok(())
    }

    /// Pops the top value; a pop from an empty stack is a stack-underflow
    /// fault and leaves the machine unchanged.
    pub fn pop(&mut self) -> (r: Result<Value, RuntimeError>)
        ensures
            final(self).spec_ip() == old(self).spec_ip(),
            old(self).spec_stack().len() > 0 ==> {
                &&& r == Ok::<Value, RuntimeError>(old(self).spec_stack().last())
                &&& final(self).spec_stack() == old(self).spec_stack().drop_last()
            },
            old(self).spec_stack().len() == 0 ==> {
                &&& r == Err::<Value, RuntimeError>(RuntimeError { kind: FaultKind::StackUnderflow })
                &&& final(self).spec_stack() == old(self).spec_stack()
            },
    {
        match self.stack.pop() {
            Some(value) => Ok(value),
            None => Err(RuntimeError { kind: FaultKind::StackUnderflow }),
        }
    }

    /// Fetches the byte at the cursor and advances past it; `None` when the
    /// cursor has run off the end of the code.
    fn read_byte(&mut self, chunk: &Chunk) -> (r: Option<u8>)
        ensures
            final(self).spec_stack() == old(self).spec_stack(),
            old(self).spec_ip() < chunk.code@.len() ==> {
                &&& r == Some(chunk.code@[old(self).spec_ip()])
                &&& final(self).spec_ip() == old(self).spec_ip() + 1
            },
            old(self).spec_ip() >= chunk.code@.len() ==> {
                &&& r is None
                &&& final(self).spec_ip() == old(self).spec_ip()
            },
    {
        if self.ip < chunk.code.len() {
            let byte = chunk.code[self.ip];
            self.ip = self.ip + 1;
            Some(byte)
        } else {
            None
        }
    }

    /// Fetches a `Constant` instruction's operand byte and looks it up in
    /// the pool; a missing operand or an index past the pool's end is an
    /// invalid-constant fault, never an unchecked read.
    fn read_constant(&mut self, chunk: &Chunk) -> (r: Result<Value, RuntimeError>)
        ensures
            final(self).spec_stack() == old(self).spec_stack(),
            old(self).spec_ip() >= chunk.code@.len() ==> {
                &&& r == Err::<Value, RuntimeError>(RuntimeError { kind: FaultKind::InvalidConstant })
                &&& final(self).spec_ip() == old(self).spec_ip()
            },
            old(self).spec_ip() < chunk.code@.len() ==> {
                let index = chunk.code@[old(self).spec_ip()];
                &&& final(self).spec_ip() == old(self).spec_ip() + 1
                &&& index < chunk.constants@.len() ==> r == Ok::<Value, RuntimeError>(
                    chunk.constants@[index as int],
                )
                &&& index >= chunk.constants@.len() ==> r == Err::<Value, RuntimeError>(
                    RuntimeError { kind: FaultKind::InvalidConstant },
                )
            },
    {
        match self.read_byte(chunk) {
            None => Err(RuntimeError { kind: FaultKind::InvalidConstant }),
            Some(index) => {
                if (index as usize) < chunk.constants.len() {
                    Ok(chunk.constants[index as usize])
                } else {
                    Err(RuntimeError { kind: FaultKind::InvalidConstant })
                }
            },
        }
    }

    /// The fetch-decode-execute loop, resumable at the current cursor.  It
    /// executes instructions until it completes at a `Return`, pauses at a
    /// binary instruction with the popped operands, or faults; the outcome
    /// and the machine left behind are exactly those of [`spec_run`] from
    /// the starting configuration.
    pub fn run(&mut self, chunk: &Chunk) -> (r: Result<RunAction, RuntimeError>)
        requires
            old(self).wf(),
        ensures
            final(self).wf(),
            ({
                let end = spec_run(
                    chunk.code@,
                    chunk.constants@,
                    old(self).spec_ip(),
                    old(self).spec_stack(),
                );
                &&& final(self).spec_ip() == end.ip
                &&& final(self).spec_stack() == end.stack
                &&& r == end.out
            }),
    {
        let ghost code = chunk.code@;
        let ghost constants = chunk.constants@;
        let ghost ip0 = self.spec_ip();
        let ghost stack0 = self.spec_stack();
        loop
            invariant
                spec_run(code, constants, self.spec_ip(), self.spec_stack()) == spec_run(
                    code,
                    constants,
                    ip0,
                    stack0,
                ),
                code == chunk.code@,
                constants == chunk.constants@,
                ip0 == old(self).spec_ip(),
                stack0 == old(self).spec_stack(),
                self.wf(),
            decreases code.len() - self.spec_ip(),
        {
            let ghost ip_at = self.spec_ip();
            let ghost stack_at = self.spec_stack();
            let byte = match self.read_byte(chunk) {
                Some(byte) => byte,
                None => {
                    return Err(RuntimeError { kind: FaultKind::InvalidInstruction });
                },
            };
            let instruction = match Opcode::try_from(byte) {
                Ok(instruction) => instruction,
                Err(fault) => {
                    return Err(fault);
                },
            };
            match instruction {
                Opcode::Constant => {
                    let constant = match self.read_constant(chunk) {
                        Ok(constant) => constant,
                        Err(fault) => {
                            return Err(fault);
                        },
                    };
                    match self.push(constant) {
                        Ok(()) => {},
                        Err(fault) => {
                            return Err(fault);
                        },
                    }
                },
                Opcode::Add | Opcode::Subtract | Opcode::Multiply | Opcode::Divide => {
                    if self.stack.len() < 2 {
                        return Err(RuntimeError { kind: FaultKind::StackUnderflow });
                    }
                    let b = match self.pop() {
                        Ok(b) => b,
                        Err(fault) => {
                            return Err(fault);
                        },
                    };
                    let a = match self.pop() {
                        Ok(a) => a,
                        Err(fault) => {
                            return Err(fault);
                        },
                    };
                    return Ok(RunAction::Binary(instruction, a, b));
                },
                Opcode::Negate => {
                    let value = match self.pop() {
                        Ok(value) => value,
                        Err(fault) => {
                            return Err(fault);
                        },
                    };
                    match self.push(value ^ SIGN_BIT) {
                        Ok(()) => {},
                        Err(fault) => {
                            return Err(fault);
                        },
                    }
                    proof {
                        assert(self.spec_stack() == stack_at.update(
                            stack_at.len() - 1,
                            negated(stack_at.last()),
                        )) by {
                            assert(self.spec_stack() =~= stack_at.update(
                                stack_at.len() - 1,
                                negated(stack_at.last()),
                            ));
                        }
                    }
                },
                Opcode::Return => {
                    let value = match self.pop() {
                        Ok(value) => value,
                        Err(fault) => {
                            return Err(fault);
                        },
                    };
                    return Ok(RunAction::Return(value));
                },
            }
        }
    }

    /// The entry point for one program: hands the source to the compiler.
    /// The compiler so far only scans; it cannot fail, so no chunk is built
    /// and nothing runs yet.  The machine itself is left untouched.
    pub fn interpret(&mut self, source: &[u8]) -> (r: Result<(), InterpretError>)
        requires
            source@.len() + 1 < usize::MAX,
        ensures
            r == Ok::<(), InterpretError>(()),
            final(self).spec_ip() == old(self).spec_ip(),
            final(self).spec_stack() == old(self).spec_stack(),
    {
        let _tokens = crate::compile::compile(source);
        Ok(())
    }
}

/// Law: push then pop returns the pushed value unchanged and restores the
/// stack, for any representable value.  [`VirtualMachine::push`] on a stack
/// below capacity yields `stack.push(value)`, and [`VirtualMachine::pop`]
/// on that stack returns its last element and leaves `drop_last()` behind;
/// this law closes the round trip.
pub proof fn lemma_push_then_pop(stack: Seq<Value>, value: Value)
    requires
        stack.len() < STACK_MAX,
    ensures
        stack.push(value).last() == value,
        stack.push(value).drop_last() == stack,
{
    assert(stack.push(value).drop_last() =~= stack);
}

} // verus!
