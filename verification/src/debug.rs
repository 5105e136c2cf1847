//! The disassembler: a pure, read-only renderer of a chunk into instruction
//! records, used both for whole-chunk dumps and for tracing one instruction
//! at the cursor during execution.  It advances through the code by exactly
//! the widths the interpreter's fetch loop uses.

use vstd::prelude::*;

use crate::chunk::Chunk;
use crate::chunk::Opcode;
use crate::chunk::Value;
use crate::vm::FaultKind;
use crate::vm::RuntimeError;
use crate::vm::spec_run;

verus! {

/// One rendered instruction.  The caller formats it: the offset and, when
/// `show_line` is set, the source line (otherwise a continuation marker),
/// the mnemonic, and for `Constant` the operand byte and the pool value it
/// indexes.
#[derive(Copy, Clone, Debug, PartialEq, Eq)]
pub struct InstructionView {
    pub offset: usize,
    pub line: usize,
    pub show_line: bool,
    pub opcode: Opcode,
    pub operand: Option<u8>,
    pub constant: Option<Value>,
}

/// How many code bytes the instruction starting at `offset` occupies: a
/// `Constant` carries one operand byte, every other instruction stands
/// alone.  The interpreter's fetch loop advances by exactly this width.
pub open spec fn instr_width(code: Seq<u8>, offset: int) -> int {
    if code[offset] == 0 {
        2
    } else {
        1
    }
}

/// The sequence of offsets the disassembler visits when it walks `code`
/// from `offset`: each step advances by [`instr_width`].
pub open spec fn disasm_offsets(code: Seq<u8>, offset: int) -> Seq<int>
    decreases code.len() + 1 - offset,
{
    if !(0 <= offset < code.len()) {
        Seq::<int>::empty()
    } else {
        seq![offset] + disasm_offsets(code, offset + instr_width(code, offset))
    }
}

/// What rendering the single instruction at `offset` yields: its record and
/// the offset of the next instruction, or a fault for a byte that encodes no
/// instruction, a missing operand, or an operand that does not index the
/// pool.  `prev_line` is the line of the previously rendered instruction:
/// the record shows its own line only when it differs.
pub open spec fn spec_instruction(c: Chunk, offset: int, prev_line: Option<usize>) -> Result<
    (InstructionView, int),
    RuntimeError,
> {
    let byte = c.code@[offset];
    let line = c.lines@[offset];
    let show_line = prev_line != Some(line);
    match Opcode::spec_decode(byte) {
        Err(e) => Err(e),
        Ok(opcode) => {
            if opcode == Opcode::Constant {
                if !(offset + 1 < c.code@.len()) {
                    Err(RuntimeError { kind: FaultKind::InvalidConstant })
                } else {
                    let index = c.code@[offset + 1];
                    if index >= c.constants@.len() {
                        Err(RuntimeError { kind: FaultKind::InvalidConstant })
                    } else {
                        Ok(
                            (
                                InstructionView {
                                    offset: offset as usize,
                                    line,
                                    show_line,
                                    opcode,
                                    operand: Some(index),
                                    constant: Some(c.constants@[index as int]),
                                },
                                offset + 2,
                            ),
                        )
                    }
                }
            } else {
                Ok(
                    (
                        InstructionView {
                            offset: offset as usize,
                            line,
                            show_line,
                            opcode,
                            operand: None,
                            constant: None,
                        },
                        offset + 1,
                    ),
                )
            }
        },
    }
}

/// What disassembling a whole chunk from `offset` yields: one record per
/// instruction, in offset order, or the first fault met on the way.
pub open spec fn spec_disassemble(c: Chunk, offset: int, prev_line: Option<usize>) -> Result<
    Seq<InstructionView>,
    RuntimeError,
>
    decreases c.code@.len() + 1 - offset,
{
    if !(0 <= offset < c.code@.len()) {
        Ok(Seq::<InstructionView>::empty())
    } else {
        match spec_instruction(c, offset, prev_line) {
            Err(e) => Err(e),
            Ok(pair) => {
                match spec_disassemble(
                    c,
                    offset + instr_width(c.code@, offset),
                    Some(c.lines@[offset]),
                ) {
                    Err(e) => Err(e),
                    Ok(rest) => Ok(seq![pair.0] + rest),
                }
            },
        }
    }
}

/// Renders the single instruction at `offset` and returns its record and the
/// offset of the next instruction.  This is the interpreter's live-trace
/// mode; the whole-chunk dump repeats it from offset 0.
pub fn disassemble_instruction(c: &Chunk, offset: usize, prev_line: Option<usize>) -> (r: Result<
    (InstructionView, usize),
    RuntimeError,
>)
    requires
        c.wf(),
        offset < c.code@.len(),
    ensures
        match spec_instruction(*c, offset as int, prev_line) {
            Ok(pair) => r is Ok && r->Ok_0.0 == pair.0 && r->Ok_0.1 as int == pair.1,
            Err(e) => r == Err::<(InstructionView, usize), RuntimeError>(e),
        },
{
    let n = c.code.len();
    let byte = c.code[offset];
    let line = c.lines[offset];
    proof {
        assert(offset < n);
    }
    let show_line = match prev_line {
        Some(prev) => prev != line,
        None => true,
    };
    let opcode = match Opcode::try_from(byte) {
        Ok(opcode) => opcode,
        Err(e) => {
            return Err(e);
        },
    };
    match opcode {
        Opcode::Constant => {
            if !(offset + 1 < c.code.len()) {
                return Err(RuntimeError { kind: FaultKind::InvalidConstant });
            }
            let index = c.code[offset + 1];
            if (index as usize) >= c.constants.len() {
                return Err(RuntimeError { kind: FaultKind::InvalidConstant });
            }
            Ok(
                (
                    InstructionView {
                        offset,
                        line,
                        show_line,
                        opcode,
                        operand: Some(index),
                        constant: Some(c.constants[index as usize]),
                    },
                    offset + 2,
                ),
            )
        },
        _ => {
            Ok(
                (
                    InstructionView {
                        offset,
                        line,
                        show_line,
                        opcode,
                        operand: None,
                        constant: None,
                    },
                    offset + 1,
                ),
            )
        },
    }
}

/// Rendering a chunk as a whole, instruction by instruction.
pub trait Debug {
    /// What the whole-chunk dump yields.
    spec fn disassembly(&self) -> Result<Seq<InstructionView>, RuntimeError>;

    /// Whether the value is fit to disassemble.
    spec fn can_disassemble(&self) -> bool;

    /// Walks the code from offset 0, rendering one instruction per step and
    /// advancing by that instruction's width.
    fn disassemble(&self) -> (r: Result<Vec<InstructionView>, RuntimeError>)
        requires
            self.can_disassemble(),
        ensures
            match r {
                Ok(views) => self.disassembly() is Ok && views@ == self.disassembly()->Ok_0,
                Err(e) => self.disassembly() == Err::<Seq<InstructionView>, RuntimeError>(e),
            },
    ;
}

impl Debug for Chunk {
    open spec fn disassembly(&self) -> Result<Seq<InstructionView>, RuntimeError> {
        spec_disassemble(*self, 0, None)
    }

    open spec fn can_disassemble(&self) -> bool {
        self.wf()
    }

    fn disassemble(&self) -> (r: Result<Vec<InstructionView>, RuntimeError>) {
        let mut views: Vec<InstructionView> = Vec::new();
        let mut offset: usize = 0;
        let mut prev_line: Option<usize> = None;
        while offset < self.code.len()
            invariant
                self.wf(),
                offset <= self.code@.len(),
                spec_disassemble(*self, 0, None) == match spec_disassemble(
                    *self,
                    offset as int,
                    prev_line,
                ) {
                    Ok(rest) => Ok::<Seq<InstructionView>, RuntimeError>(views@ + rest),
                    Err(e) => Err::<Seq<InstructionView>, RuntimeError>(e),
                },
            decreases self.code@.len() - offset,
        {
            let ghost offset_at = offset as int;
            let ghost prev_at = prev_line;
            let ghost views_at = views@;
            let (view, next) = match disassemble_instruction(self, offset, prev_line) {
                Ok(pair) => pair,
                Err(e) => {
                    return Err(e);
                },
            };
            prev_line = Some(self.lines[offset]);
            views.push(view);
            offset = next;
            proof {
                let rest_at = spec_disassemble(*self, offset_at, prev_at);
                let rest_now = spec_disassemble(*self, offset as int, prev_line);
                assert(rest_at is Ok ==> rest_now is Ok && rest_at->Ok_0 =~= seq![view]
                    + rest_now->Ok_0);
                assert(rest_at is Ok ==> views_at + rest_at->Ok_0 =~= views@ + rest_now->Ok_0);
            }
        }
        proof {
            assert(spec_disassemble(*self, offset as int, prev_line) == Ok::<
                Seq<InstructionView>,
                RuntimeError,
            >(Seq::<InstructionView>::empty()));
            assert(views@ + Seq::<InstructionView>::empty() =~= views@);
        }
        Ok(views)
    }
}

/// Law: a whole-chunk dump renders exactly one record per offset of
/// [`disasm_offsets`], in order: the offline dump visits precisely the
/// disassembler's offset sequence.
pub proof fn lemma_dump_visits_disasm_offsets(c: Chunk, offset: int, prev_line: Option<usize>)
    requires
        c.code@.len() <= usize::MAX,
        spec_disassemble(c, offset, prev_line) is Ok,
    ensures
        ({
            let views = spec_disassemble(c, offset, prev_line)->Ok_0;
            let offs = disasm_offsets(c.code@, offset);
            &&& views.len() == offs.len()
            &&& forall|k: int| 0 <= k < views.len() ==> (#[trigger] views[k]).offset as int
                == offs[k]
        }),
    decreases c.code@.len() + 1 - offset,
{
    if !(0 <= offset < c.code@.len()) {
    } else {
        let views = spec_disassemble(c, offset, prev_line)->Ok_0;
        let next = offset + instr_width(c.code@, offset);
        let rest = spec_disassemble(c, next, Some(c.lines@[offset]));
        assert(rest is Ok);
        lemma_dump_visits_disasm_offsets(c, next, Some(c.lines@[offset]));
        let pair = spec_instruction(c, offset, prev_line)->Ok_0;
        assert(views == seq![pair.0] + rest->Ok_0);
        assert(disasm_offsets(c.code@, offset) == seq![offset] + disasm_offsets(c.code@, next));
        assert(pair.0.offset as int == offset);
        assert forall|k: int| 0 <= k < views.len() implies (#[trigger] views[k]).offset as int
            == disasm_offsets(c.code@, offset)[k] by {
            if k > 0 {
                assert(views[k] == rest->Ok_0[k - 1]);
                assert(disasm_offsets(c.code@, offset)[k] == disasm_offsets(c.code@, next)[k - 1]);
            }
        }
    }
}

/// Law: each offset the disassembler visits is followed by the offset one
/// instruction width later, so a dump renders instructions back to back
/// until it leaves the code.
pub proof fn lemma_disasm_offsets_consecutive(code: Seq<u8>, offset: int, k: int)
    requires
        0 <= k < disasm_offsets(code, offset).len(),
    ensures
        ({
            let offs = disasm_offsets(code, offset);
            let next = offs[k] + instr_width(code, offs[k]);
            &&& 0 <= offs[k] < code.len()
            &&& (k + 1 < offs.len() ==> offs[k + 1] == next)
            &&& (k + 1 == offs.len() ==> next >= code.len())
        }),
    decreases code.len() + 1 - offset,
{
    let offs = disasm_offsets(code, offset);
    let w = instr_width(code, offset);
    let rest = disasm_offsets(code, offset + w);
    assert(0 <= offset < code.len());
    assert(offs == seq![offset] + rest);
    if k == 0 {
        assert(offs[0] == offset);
        if k + 1 < offs.len() {
            assert(rest.len() > 0);
            assert(offs[1] == rest[0]);
            assert(0 <= offset + w < code.len());
            assert(rest == seq![offset + w] + disasm_offsets(
                code,
                offset + w + instr_width(code, offset + w),
            ));
        } else {
            assert(rest.len() == 0);
            assert(offset + w >= code.len());
        }
    } else {
        assert(rest.len() > 0);
        assert(0 <= offset + w < code.len());
        lemma_disasm_offsets_consecutive(code, offset + w, k - 1);
        assert(offs[k] == rest[k - 1]);
        if k + 1 < offs.len() {
            assert(offs[k + 1] == rest[k]);
        }
    }
}

/// Law: the offline dump and the live execution trace visit the same
/// offsets.  Run from any offset the disassembler visits, the interpreter —
/// which advances by the same widths — stops, pauses, or returns at an
/// offset the disassembler also visits, or exactly at the code's end; so a
/// trace that resumes after each pause walks the dump's offset sequence in
/// order.
pub proof fn lemma_trace_follows_disassembly(
    code: Seq<u8>,
    constants: Seq<Value>,
    ip: int,
    stack: Seq<Value>,
)
    requires
        disasm_offsets(code, 0).contains(ip),
        spec_run(code, constants, ip, stack).out is Ok,
    ensures
        disasm_offsets(code, 0).contains(spec_run(code, constants, ip, stack).ip) || spec_run(
            code,
            constants,
            ip,
            stack,
        ).ip == code.len(),
    decreases code.len() - ip,
{
    let offs = disasm_offsets(code, 0);
    let k = choose|k: int| 0 <= k < offs.len() && offs[k] == ip;
    lemma_disasm_offsets_consecutive(code, 0, k);
    let next = ip + instr_width(code, ip);
    assert(offs.contains(next) || next >= code.len()) by {
        if k + 1 < offs.len() {
            assert(offs[k + 1] == next);
        }
    }
    let byte = code[ip];
    if byte == 0 {
        let index = code[ip + 1];
        if ip + 1 < code.len() && index < constants.len() && stack.len() < crate::vm::STACK_MAX {
            lemma_trace_follows_disassembly(
                code,
                constants,
                ip + 2,
                stack.push(constants[index as int]),
            );
        }
    } else if byte == 5 {
        if stack.len() > 0 {
            lemma_trace_follows_disassembly(
                code,
                constants,
                ip + 1,
                stack.update(stack.len() - 1, crate::vm::negated(stack.last())),
            );
        }
    }
}

} // verus!
