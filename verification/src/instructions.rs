//! Decoded instruction forms, the two-pass decoder, and branch resolution.
//!
//! The first pass walks the text bytes once, emitting one decoded
//! instruction per step and recording, for every byte consumed, the index of
//! the instruction that consumed it. Branches and calls come out of the
//! first pass as `Delayed` placeholders carrying their raw operands; the
//! second pass rewrites them into instruction-index targets through the
//! byte-to-instruction mapping.

use vstd::prelude::*;

use crate::ijvm_core::exec_spec;
use crate::ijvm_core::ConstantKind;
use crate::ijvm_core::InstructionRef;
use crate::ijvm_core::LoadError;
use crate::ijvm_core::RuntimeInner;
use crate::ijvm_core::TrapError;
use crate::tiny::STACK_SIZE;

verus! {

/// One decoded instruction. Branch and call targets are stored in resolved
/// form: an instruction index pre-decremented by one, to fit a dispatch loop
/// that increments the program counter after every instruction.
#[allow(non_camel_case_types)]
#[derive(Clone, Copy, PartialEq, Eq, Debug)]
pub enum MemoryBlock {
    BIPUSH(i8),
    DUP,
    ERR,
    HALT,
    IADD,
    IAND,
    IINC(u8, u8),
    ILOAD(u8),
    ISTORE(u8),
    IN,
    IOR,
    IRETURN,
    ISUB,
    NOP,
    OUT,
    POP,
    SWAP,
    WIDE(WideMemoryBlock),
    METHODHEADER { n_args: u16, n_vars: u16 },
    RESOLVED_INVOKEVIRTUAL(InstructionRef),
    RESOLVED_GOTO(InstructionRef),
    RESOLVED_IFEQ(InstructionRef),
    RESOLVED_IFLT(InstructionRef),
    RESOLVED_IF_ICMPEQ(InstructionRef),
    RESOLVED_LDC_W(i32),
    Delayed(ResolveLater, Option<InstructionRef>),
}

/// An instruction under a `WIDE` prefix. The prefix widens the local index
/// of the next `ILOAD`, `ISTORE` or `IINC` to sixteen bits; the delta byte
/// of `IINC` keeps its width.
#[allow(non_camel_case_types)]
#[derive(Clone, Copy, PartialEq, Eq, Debug)]
pub enum WideMemoryBlock {
    ILOAD(u16),
    ISTORE(u16),
    IIINC(u16, u8),
}

/// A branch or call placeholder of the first pass, carrying the raw signed
/// byte offset (branches) or the raw constant index (`INVOKEVIRTUAL`).
#[allow(non_camel_case_types)]
#[derive(Clone, Copy, PartialEq, Eq, Debug)]
pub enum ResolveLater {
    GOTO(i16),
    INVOKEVIRTUAL(u16),
    IFEQ(i16),
    IFLT(i16),
    IF_ICMPEQ(i16),
}

/// The big-endian 16-bit word starting at byte `i` of `data`.
pub open spec fn be_u16(data: Seq<u8>, i: int) -> u16 {
    ((data[i] as int) * 256 + (data[i + 1] as int)) as u16
}

/// The big-endian 16-bit word at byte `i`, reinterpreted as signed.
pub open spec fn be_i16(data: Seq<u8>, i: int) -> i16 {
    be_u16(data, i) as i16
}

/// Whether some constant-pool entry lists byte offset `pos` as a method
/// reference, so that the decoder must read a method header there.
pub open spec fn is_header_at(consts: Seq<ConstantKind>, pos: int) -> bool {
    exists|k: int|
        0 <= k < consts.len() && ((#[trigger] consts[k]) matches ConstantKind::MethodRef(v) && v
            >= 0 && v as int == pos)
}

/// The instruction decoded at byte `pos` of the text, with the number of
/// bytes it consumes. A position listed as a method reference decodes as a
/// method header regardless of its bytes; an opcode outside the table also
/// decodes as a method header, a recovery for headers the classifier did
/// not see.
pub open spec fn decode_one(text: Seq<u8>, consts: Seq<ConstantKind>, pos: int) -> Result<
    (MemoryBlock, int),
    LoadError,
> {
    if is_header_at(consts, pos) {
        if pos + 4 <= text.len() {
            Ok(
                (
                    MemoryBlock::METHODHEADER {
                        n_args: be_u16(text, pos),
                        n_vars: be_u16(text, pos + 2),
                    },
                    4,
                ),
            )
        } else {
            Err(LoadError::TruncatedBlock)
        }
    } else {
        let op = text[pos];
        if op == 0x00 {
            Ok((MemoryBlock::NOP, 1))
        } else if op == 0x57 {
            Ok((MemoryBlock::POP, 1))
        } else if op == 0x59 {
            Ok((MemoryBlock::DUP, 1))
        } else if op == 0x5F {
            Ok((MemoryBlock::SWAP, 1))
        } else if op == 0x60 {
            Ok((MemoryBlock::IADD, 1))
        } else if op == 0x64 {
            Ok((MemoryBlock::ISUB, 1))
        } else if op == 0x7E {
            Ok((MemoryBlock::IAND, 1))
        } else if op == 0xB0 {
            Ok((MemoryBlock::IOR, 1))
        } else if op == 0xAC {
            Ok((MemoryBlock::IRETURN, 1))
        } else if op == 0xFC {
            Ok((MemoryBlock::IN, 1))
        } else if op == 0xFD {
            Ok((MemoryBlock::OUT, 1))
        } else if op == 0xFE {
            Ok((MemoryBlock::ERR, 1))
        } else if op == 0xFF {
            Ok((MemoryBlock::HALT, 1))
        } else if op == 0x10 {
            if pos + 2 <= text.len() {
                Ok((MemoryBlock::BIPUSH(text[pos + 1] as i8), 2))
            } else {
                Err(LoadError::TruncatedBlock)
            }
        } else if op == 0x15 {
            if pos + 2 <= text.len() {
                Ok((MemoryBlock::ILOAD(text[pos + 1]), 2))
            } else {
                Err(LoadError::TruncatedBlock)
            }
        } else if op == 0x36 {
            if pos + 2 <= text.len() {
                Ok((MemoryBlock::ISTORE(text[pos + 1]), 2))
            } else {
                Err(LoadError::TruncatedBlock)
            }
        } else if op == 0x84 {
            if pos + 3 <= text.len() {
                Ok((MemoryBlock::IINC(text[pos + 1], text[pos + 2]), 3))
            } else {
                Err(LoadError::TruncatedBlock)
            }
        } else if op == 0x13 {
            if pos + 3 <= text.len() {
                let ci = be_u16(text, pos + 1) as int;
                if ci < consts.len() && consts[ci].is_stack_usable() {
                    Ok((MemoryBlock::RESOLVED_LDC_W(consts[ci].spec_value()), 3))
                } else {
                    Err(LoadError::BadConstantKind)
                }
            } else {
                Err(LoadError::TruncatedBlock)
            }
        } else if op == 0x99 {
            if pos + 3 <= text.len() {
                Ok((MemoryBlock::Delayed(ResolveLater::IFEQ(be_i16(text, pos + 1)), None), 3))
            } else {
                Err(LoadError::TruncatedBlock)
            }
        } else if op == 0x9B {
            if pos + 3 <= text.len() {
                Ok((MemoryBlock::Delayed(ResolveLater::IFLT(be_i16(text, pos + 1)), None), 3))
            } else {
                Err(LoadError::TruncatedBlock)
            }
        } else if op == 0x9F {
            if pos + 3 <= text.len() {
                Ok((MemoryBlock::Delayed(ResolveLater::IF_ICMPEQ(be_i16(text, pos + 1)), None), 3))
            } else {
                Err(LoadError::TruncatedBlock)
            }
        } else if op == 0xA7 {
            if pos + 3 <= text.len() {
                Ok((MemoryBlock::Delayed(ResolveLater::GOTO(be_i16(text, pos + 1)), None), 3))
            } else {
                Err(LoadError::TruncatedBlock)
            }
        } else if op == 0xB6 {
            if pos + 3 <= text.len() {
                Ok(
                    (
                        MemoryBlock::Delayed(
                            ResolveLater::INVOKEVIRTUAL(be_u16(text, pos + 1)),
                            None,
                        ),
                        3,
                    ),
                )
            } else {
                Err(LoadError::TruncatedBlock)
            }
        } else if op == 0xC4 {
            if pos + 2 <= text.len() {
                let w = text[pos + 1];
                if w == 0x15 {
                    if pos + 4 <= text.len() {
                        Ok((MemoryBlock::WIDE(WideMemoryBlock::ILOAD(be_u16(text, pos + 2))), 4))
                    } else {
                        Err(LoadError::TruncatedBlock)
                    }
                } else if w == 0x36 {
                    if pos + 4 <= text.len() {
                        Ok((MemoryBlock::WIDE(WideMemoryBlock::ISTORE(be_u16(text, pos + 2))), 4))
                    } else {
                        Err(LoadError::TruncatedBlock)
                    }
                } else if w == 0x84 {
                    if pos + 5 <= text.len() {
                        Ok(
                            (
                                MemoryBlock::WIDE(
                                    WideMemoryBlock::IIINC(be_u16(text, pos + 2), text[pos + 4]),
                                ),
                                5,
                            ),
                        )
                    } else {
                        Err(LoadError::TruncatedBlock)
                    }
                } else {
                    Err(LoadError::InvalidWideOpcode)
                }
            } else {
                Err(LoadError::TruncatedBlock)
            }
        } else {
            if pos + 4 <= text.len() {
                Ok(
                    (
                        MemoryBlock::METHODHEADER {
                            n_args: ((op as int) * 256 + (text[pos + 1] as int)) as u16,
                            n_vars: be_u16(text, pos + 2),
                        },
                        4,
                    ),
                )
            } else {
                Err(LoadError::TruncatedBlock)
            }
        }
    }
}

/// The whole first pass from byte `pos` on, extending the accumulated
/// instructions and mapping: the decoded instructions, and one mapping entry
/// per consumed byte naming the instruction that consumed it.
pub open spec fn decode_from(
    text: Seq<u8>,
    consts: Seq<ConstantKind>,
    pos: int,
    blocks: Seq<MemoryBlock>,
    mappings: Seq<usize>,
) -> Result<(Seq<MemoryBlock>, Seq<usize>), LoadError>
    decreases text.len() - pos,
{
    if pos >= text.len() {
        Ok((blocks, mappings))
    } else {
        match decode_one(text, consts, pos) {
            Err(e) => Err(e),
            Ok((ins, k)) => if 1 <= k && pos + k <= text.len() {
                decode_from(
                    text,
                    consts,
                    pos + k,
                    blocks.push(ins),
                    mappings + Seq::new(k as nat, |i: int| blocks.len() as usize),
                )
            } else {
                Err(LoadError::TruncatedBlock)
            },
        }
    }
}

/// Index of the first occurrence of `v` in `m`, or `-1` when absent.
pub open spec fn first_occ(m: Seq<usize>, v: usize) -> int
    decreases m.len(),
{
    if m.len() == 0 {
        -1
    } else if m[0] == v {
        0
    } else {
        let r = first_occ(m.drop_first(), v);
        if r < 0 {
            -1
        } else {
            r + 1
        }
    }
}

/// The resolved target of a branch placed at instruction index `i` with raw
/// byte offset `offset`: with `k` the byte offset of the branch opcode
/// (`mappings[k] == i` first), the target is `mappings[k + offset] - 1`, the
/// decrement compensating the dispatcher's post-increment.
pub open spec fn branch_target(mappings: Seq<usize>, i: int, offset: int) -> Result<
    InstructionRef,
    LoadError,
> {
    let k = first_occ(mappings, i as usize);
    if k < 0 {
        Err(LoadError::BadBranchTarget)
    } else {
        let j = k + offset;
        if 0 <= j < mappings.len() {
            if mappings[j] == 0 {
                Err(LoadError::BadBranchTarget)
            } else {
                Ok((mappings[j] - 1) as usize)
            }
        } else {
            Err(LoadError::BadBranchTarget)
        }
    }
}

/// The resolved target of `INVOKEVIRTUAL` against constant `ci`: the entry
/// must be usable as a method reference, and its value, a byte offset into
/// the text, maps to the instruction index of the method header there.
pub open spec fn invoke_target(
    mappings: Seq<usize>,
    consts: Seq<ConstantKind>,
    ci: int,
) -> Result<InstructionRef, LoadError> {
    if 0 <= ci < consts.len() {
        if consts[ci].is_method_usable() {
            let v = consts[ci].spec_value();
            if 0 <= v < mappings.len() {
                Ok(mappings[v as int])
            } else {
                Err(LoadError::BadInvokeTarget)
            }
        } else {
            Err(LoadError::BadConstantKind)
        }
    } else {
        Err(LoadError::BadConstantKind)
    }
}

/// The second pass on one instruction: placeholders become resolved
/// branches and calls, everything else stays as it is.
pub open spec fn resolve_one(
    b: MemoryBlock,
    i: int,
    mappings: Seq<usize>,
    consts: Seq<ConstantKind>,
) -> Result<MemoryBlock, LoadError> {
    match b {
        MemoryBlock::Delayed(rl, _reference) => match rl {
            ResolveLater::GOTO(d) => match branch_target(mappings, i, d as int) {
                Ok(t) => Ok(MemoryBlock::RESOLVED_GOTO(t)),
                Err(e) => Err(e),
            },
            ResolveLater::IFEQ(d) => match branch_target(mappings, i, d as int) {
                Ok(t) => Ok(MemoryBlock::RESOLVED_IFEQ(t)),
                Err(e) => Err(e),
            },
            ResolveLater::IFLT(d) => match branch_target(mappings, i, d as int) {
                Ok(t) => Ok(MemoryBlock::RESOLVED_IFLT(t)),
                Err(e) => Err(e),
            },
            ResolveLater::IF_ICMPEQ(d) => match branch_target(mappings, i, d as int) {
                Ok(t) => Ok(MemoryBlock::RESOLVED_IF_ICMPEQ(t)),
                Err(e) => Err(e),
            },
            ResolveLater::INVOKEVIRTUAL(ci) => match invoke_target(mappings, consts, ci as int) {
                Ok(t) => Ok(MemoryBlock::RESOLVED_INVOKEVIRTUAL(t)),
                Err(e) => Err(e),
            },
        },
        _ => Ok(b),
    }
}

/// The whole second pass from instruction `i` on, extending the accumulated
/// resolved program.
pub open spec fn resolve_from(
    blocks: Seq<MemoryBlock>,
    mappings: Seq<usize>,
    consts: Seq<ConstantKind>,
    i: int,
    acc: Seq<MemoryBlock>,
) -> Result<Seq<MemoryBlock>, LoadError>
    decreases blocks.len() - i,
{
    if i >= blocks.len() {
        Ok(acc)
    } else {
        match resolve_one(blocks[i], i, mappings, consts) {
            Err(e) => Err(e),
            Ok(b) => resolve_from(blocks, mappings, consts, i + 1, acc.push(b)),
        }
    }
}

/// Both passes: what the parser produces for given text bytes and
/// classified constants, or the first error either pass meets.
pub open spec fn parse_spec(text: Seq<u8>, consts: Seq<ConstantKind>) -> Result<
    Seq<MemoryBlock>,
    LoadError,
> {
    match decode_from(text, consts, 0, Seq::empty(), Seq::empty()) {
        Err(e) => Err(e),
        Ok((blocks, mappings)) => resolve_from(blocks, mappings, consts, 0, Seq::empty()),
    }
}

/// An `Ok` of `decode_one` consumes between one and five bytes and stays
/// within the text.
pub proof fn lemma_decode_one_bounds(text: Seq<u8>, consts: Seq<ConstantKind>, pos: int)
    requires
        0 <= pos < text.len(),
        decode_one(text, consts, pos) is Ok,
    ensures
        1 <= decode_one(text, consts, pos)->Ok_0.1,
        pos + decode_one(text, consts, pos)->Ok_0.1 <= text.len(),
{
}

/// First-occurrence index characterisation: a position that matches, with
/// no match before it, is the first occurrence.
pub proof fn lemma_first_occ_found(m: Seq<usize>, v: usize, k: int)
    requires
        0 <= k < m.len(),
        m[k] == v,
        forall|j: int| 0 <= j < k ==> m[j] != v,
    ensures
        first_occ(m, v) == k,
    decreases k,
{
    if k > 0 {
        assert(forall|j: int| 0 <= j < k - 1 ==> m.drop_first()[j] == m[j + 1]);
        lemma_first_occ_found(m.drop_first(), v, k - 1);
    }
}

/// First-occurrence index characterisation: with no match anywhere, there
/// is no first occurrence.
pub proof fn lemma_first_occ_none(m: Seq<usize>, v: usize)
    requires
        forall|j: int| 0 <= j < m.len() ==> m[j] != v,
    ensures
        first_occ(m, v) == -1,
    decreases m.len(),
{
    if m.len() > 0 {
        assert(forall|j: int| 0 <= j < m.len() - 1 ==> m.drop_first()[j] == m[j + 1]);
        lemma_first_occ_none(m.drop_first(), v);
    }
}

/// The first-occurrence index, when it exists, matches and nothing before
/// it does.
pub proof fn lemma_first_occ_is_first(m: Seq<usize>, v: usize)
    requires
        first_occ(m, v) >= 0,
    ensures
        first_occ(m, v) < m.len(),
        m[first_occ(m, v)] == v,
        forall|j: int| 0 <= j < first_occ(m, v) ==> m[j] != v,
    decreases m.len(),
{
    if m.len() > 0 && m[0] != v {
        lemma_first_occ_is_first(m.drop_first(), v);
        assert(forall|j: int| 1 <= j < first_occ(m, v) ==> m[j] == m.drop_first()[j - 1]);
    }
}

/// Membership of the `execute_stack_op` dispatch group.
spec fn is_stack_op(ins: MemoryBlock) -> bool {
    ||| ins matches MemoryBlock::IADD
        ||| ins matches MemoryBlock::ISUB
        ||| ins matches MemoryBlock::IAND
        ||| ins matches MemoryBlock::IOR
        ||| ins matches MemoryBlock::BIPUSH(_)
        ||| ins matches MemoryBlock::SWAP
        ||| ins matches MemoryBlock::POP
        ||| ins matches MemoryBlock::DUP
        ||| ins matches MemoryBlock::RESOLVED_LDC_W(_)
        ||| ins matches MemoryBlock::OUT
        ||| ins matches MemoryBlock::IN
}

/// Membership of the `execute_local_op` dispatch group.
spec fn is_local_op(ins: MemoryBlock) -> bool {
    ||| ins matches MemoryBlock::ILOAD(_)
        ||| ins matches MemoryBlock::ISTORE(_)
        ||| ins matches MemoryBlock::IINC(_, _)
        ||| ins matches MemoryBlock::WIDE(_)
}

/// Membership of the `execute_control_op` dispatch group.
spec fn is_control_op(ins: MemoryBlock) -> bool {
    ||| ins matches MemoryBlock::HALT
        ||| ins matches MemoryBlock::RESOLVED_GOTO(_)
        ||| ins matches MemoryBlock::RESOLVED_IFEQ(_)
        ||| ins matches MemoryBlock::RESOLVED_IFLT(_)
        ||| ins matches MemoryBlock::RESOLVED_IF_ICMPEQ(_)
        ||| ins matches MemoryBlock::ERR
        ||| ins matches MemoryBlock::NOP
}

/// Membership of the `execute_call_op` dispatch group.
spec fn is_call_op(ins: MemoryBlock) -> bool {
    ||| ins matches MemoryBlock::RESOLVED_INVOKEVIRTUAL(_)
        ||| ins matches MemoryBlock::IRETURN
        ||| ins matches MemoryBlock::METHODHEADER { .. }
        ||| ins matches MemoryBlock::Delayed(..)
}

impl MemoryBlock {
    /// Carries out this instruction on the machine state: exactly
    /// `exec_spec`, the per-opcode semantics. The program counter is left to
    /// the dispatcher.
    pub fn execute(&self, runtime: &mut RuntimeInner)
        requires
            old(runtime).wf(),
        ensures
            final(runtime)@ == exec_spec(*self, old(runtime)@),
            final(runtime).wf(),
    {
        match *self {
            MemoryBlock::IADD | MemoryBlock::ISUB | MemoryBlock::IAND | MemoryBlock::IOR | MemoryBlock::BIPUSH(_) | MemoryBlock::SWAP | MemoryBlock::POP | MemoryBlock::DUP | MemoryBlock::RESOLVED_LDC_W(_) | MemoryBlock::OUT | MemoryBlock::IN => self.execute_stack_op(runtime),
            MemoryBlock::ILOAD(_) | MemoryBlock::ISTORE(_) | MemoryBlock::IINC(_, _) | MemoryBlock::WIDE(_) => self.execute_local_op(runtime),
            MemoryBlock::HALT | MemoryBlock::RESOLVED_GOTO(_) | MemoryBlock::RESOLVED_IFEQ(_) | MemoryBlock::RESOLVED_IFLT(_) | MemoryBlock::RESOLVED_IF_ICMPEQ(_) | MemoryBlock::ERR | MemoryBlock::NOP => self.execute_control_op(runtime),
            MemoryBlock::RESOLVED_INVOKEVIRTUAL(_) | MemoryBlock::IRETURN | MemoryBlock::METHODHEADER { .. } | MemoryBlock::Delayed(..) => self.execute_call_op(runtime),
        }
    }

    /// The arithmetic, stack-shape and stream opcodes.
    #[verifier::spinoff_prover]
    #[verifier::rlimit(50)]
    fn execute_stack_op(&self, runtime: &mut RuntimeInner)
        requires
            old(runtime).wf(),
            is_stack_op(*self),
        ensures
            final(runtime)@ == exec_spec(*self, old(runtime)@),
            final(runtime).wf(),
    {
        let ins = *self;
        match ins {
            MemoryBlock::IADD => {
                if runtime.stack_len() < 2 {
                    runtime.set_trap(TrapError::StackUnderflow);
                } else {
                    let top = runtime.stack_pop();
                    let second_top = runtime.stack_pop();
                    runtime.stack_push(top.wrapping_add(second_top));
                    proof {
                        lemma_two_pops(old(runtime)@.stack);
                    }
                }
                proof {
                    assert(runtime@ =~= exec_spec(*self, old(runtime)@));
                }
            },
            MemoryBlock::ISUB => {
                if runtime.stack_len() < 2 {
                    runtime.set_trap(TrapError::StackUnderflow);
                } else {
                    let top = runtime.stack_pop();
                    let second_top = runtime.stack_pop();
                    runtime.stack_push(second_top.wrapping_sub(top));
                    proof {
                        lemma_two_pops(old(runtime)@.stack);
                    }
                }
                proof {
                    assert(runtime@ =~= exec_spec(*self, old(runtime)@));
                }
            },
            MemoryBlock::IAND => {
                if runtime.stack_len() < 2 {
                    runtime.set_trap(TrapError::StackUnderflow);
                } else {
                    let top = runtime.stack_pop();
                    let second_top = runtime.stack_pop();
                    runtime.stack_push(top & second_top);
                    proof {
                        lemma_two_pops(old(runtime)@.stack);
                    }
                }
                proof {
                    assert(runtime@ =~= exec_spec(*self, old(runtime)@));
                }
            },
            MemoryBlock::IOR => {
                if runtime.stack_len() < 2 {
                    runtime.set_trap(TrapError::StackUnderflow);
                } else {
                    let top = runtime.stack_pop();
                    let second_top = runtime.stack_pop();
                    runtime.stack_push(top | second_top);
                    proof {
                        lemma_two_pops(old(runtime)@.stack);
                    }
                }
                proof {
                    assert(runtime@ =~= exec_spec(*self, old(runtime)@));
                }
            },
            MemoryBlock::BIPUSH(val) => {
                if runtime.stack_len() >= STACK_SIZE {
                    runtime.set_trap(TrapError::StackOverflow);
                } else {
                    runtime.stack_push(val as i32);
                }
                proof {
                    assert(runtime@ =~= exec_spec(*self, old(runtime)@));
                }
            },
            MemoryBlock::SWAP => {
                if runtime.stack_len() < 2 {
                    runtime.set_trap(TrapError::StackUnderflow);
                } else {
                    runtime.stack_swap();
                }
                proof {
                    assert(runtime@ =~= exec_spec(*self, old(runtime)@));
                }
            },
            MemoryBlock::POP => {
                if runtime.stack_len() < 1 {
                    runtime.set_trap(TrapError::StackUnderflow);
                } else {
                    runtime.stack_pop();
                }
                proof {
                    assert(runtime@ =~= exec_spec(*self, old(runtime)@));
                }
            },
            MemoryBlock::DUP => {
                if runtime.stack_len() < 1 {
                    runtime.set_trap(TrapError::StackUnderflow);
                } else if runtime.stack_len() >= STACK_SIZE {
                    runtime.set_trap(TrapError::StackOverflow);
                } else {
                    let top = runtime.stack_pop();
                    runtime.stack_push(top);
                    runtime.stack_push(top);
                    proof {
                        assert(old(runtime)@.stack.drop_last().push(top) =~= old(
                            runtime,
                        )@.stack);
                    }
                }
                proof {
                    assert(runtime@ =~= exec_spec(*self, old(runtime)@));
                }
            },
            MemoryBlock::RESOLVED_LDC_W(constant) => {
                if runtime.stack_len() >= STACK_SIZE {
                    runtime.set_trap(TrapError::StackOverflow);
                } else {
                    runtime.stack_push(constant);
                }
                proof {
                    assert(runtime@ =~= exec_spec(*self, old(runtime)@));
                }
            },
            MemoryBlock::OUT => {
                if runtime.stack_len() < 1 {
                    runtime.set_trap(TrapError::StackUnderflow);
                } else {
                    let popped = runtime.stack_pop();
                    runtime.write_output_byte(popped);
                }
                proof {
                    assert(runtime@ =~= exec_spec(*self, old(runtime)@));
                }
            },
            MemoryBlock::IN => {
                if runtime.stack_len() >= STACK_SIZE {
                    runtime.set_trap(TrapError::StackOverflow);
                } else {
                    let loaded = runtime.read_input_byte();
                    runtime.stack_push(loaded);
                }
                proof {
                    assert(runtime@ =~= exec_spec(*self, old(runtime)@));
                }
            },
            _ => {
                proof {
                    assert(false);
                }
            },
        }
    }

    /// The local-variable opcodes, wide forms included.
    #[verifier::spinoff_prover]
    #[verifier::rlimit(50)]
    fn execute_local_op(&self, runtime: &mut RuntimeInner)
        requires
            old(runtime).wf(),
            is_local_op(*self),
        ensures
            final(runtime)@ == exec_spec(*self, old(runtime)@),
            final(runtime).wf(),
    {
        let ins = *self;
        match ins {
            MemoryBlock::ILOAD(ident) => {
                if runtime.stack_len() >= STACK_SIZE {
                    runtime.set_trap(TrapError::StackOverflow);
                } else {
                    let value = runtime.frame().load_var(ident as u16);
                    runtime.stack_push(value);
                }
                proof {
                    assert(runtime@ =~= exec_spec(*self, old(runtime)@));
                }
            },
            MemoryBlock::ISTORE(ident) => {
                if runtime.stack_len() < 1 {
                    runtime.set_trap(TrapError::StackUnderflow);
                } else {
                    let value = runtime.stack_pop();
                    runtime.store_var(ident as u16, value);
                }
                proof {
                    assert(runtime@ =~= exec_spec(*self, old(runtime)@));
                }
            },
            MemoryBlock::IINC(ident, to_add) => {
                let current_value = runtime.frame().load_var(ident as u16);
                runtime.store_var(ident as u16, current_value.wrapping_add(to_add as i32));
                proof {
                    assert(runtime@ =~= exec_spec(*self, old(runtime)@));
                }
            },
            MemoryBlock::WIDE(block) => {
                match block {
                WideMemoryBlock::ILOAD(ident) => {
                    if runtime.stack_len() >= STACK_SIZE {
                        runtime.set_trap(TrapError::StackOverflow);
                    } else {
                        let value = runtime.frame().load_var(ident);
                        runtime.stack_push(value);
                    }
                },
                WideMemoryBlock::ISTORE(ident) => {
                    if runtime.stack_len() < 1 {
                        runtime.set_trap(TrapError::StackUnderflow);
                    } else {
                        let value = runtime.stack_pop();
                        runtime.store_var(ident, value);
                    }
                },
                WideMemoryBlock::IIINC(ident, to_add) => {
                    let current_value = runtime.frame().load_var(ident);
                    runtime.store_var(ident, current_value.wrapping_add(to_add as i32));
                },
                }
                proof {
                    assert(runtime@ =~= exec_spec(*self, old(runtime)@));
                }
            },
            _ => {
                proof {
                    assert(false);
                }
            },
        }
    }

    /// Halt, the branches, `ERR` and `NOP`.
    #[verifier::spinoff_prover]
    #[verifier::rlimit(50)]
    fn execute_control_op(&self, runtime: &mut RuntimeInner)
        requires
            old(runtime).wf(),
            is_control_op(*self),
        ensures
            final(runtime)@ == exec_spec(*self, old(runtime)@),
            final(runtime).wf(),
    {
        let ins = *self;
        match ins {
            MemoryBlock::HALT => {
                runtime.halt();
                proof {
                    assert(runtime@ =~= exec_spec(*self, old(runtime)@));
                }
            },
            MemoryBlock::RESOLVED_GOTO(pc) => {
                runtime.set_pc(pc);
                proof {
                    assert(runtime@ =~= exec_spec(*self, old(runtime)@));
                }
            },
            MemoryBlock::RESOLVED_IFEQ(pc) => {
                if runtime.stack_len() < 1 {
                    runtime.set_trap(TrapError::StackUnderflow);
                } else {
                    let top = runtime.stack_pop();
                    if top == 0 {
                        runtime.set_pc(pc);
                    }
                }
                proof {
                    assert(runtime@ =~= exec_spec(*self, old(runtime)@));
                }
            },
            MemoryBlock::RESOLVED_IFLT(pc) => {
                if runtime.stack_len() < 1 {
                    runtime.set_trap(TrapError::StackUnderflow);
                } else {
                    let top = runtime.stack_pop();
                    if top < 0 {
                        runtime.set_pc(pc);
                    }
                }
                proof {
                    assert(runtime@ =~= exec_spec(*self, old(runtime)@));
                }
            },
            MemoryBlock::RESOLVED_IF_ICMPEQ(pc) => {
                if runtime.stack_len() < 2 {
                    runtime.set_trap(TrapError::StackUnderflow);
                } else {
                    let top = runtime.stack_pop();
                    let top2 = runtime.stack_pop();
                    proof {
                        lemma_two_pops(old(runtime)@.stack);
                    }
                    if top == top2 {
                        runtime.set_pc(pc);
                    }
                }
                proof {
                    assert(runtime@ =~= exec_spec(*self, old(runtime)@));
                }
            },
            MemoryBlock::ERR => {
                runtime.set_trap(TrapError::ErrInstruction);
                proof {
                    assert(runtime@ =~= exec_spec(*self, old(runtime)@));
                }
            },
            MemoryBlock::NOP => {
                proof {
                    assert(runtime@ =~= exec_spec(*self, old(runtime)@));
                }
            },
            _ => {
                proof {
                    assert(false);
                }
            },
        }
    }

    /// The call and return protocol, and the blocks that may not be executed.
    #[verifier::spinoff_prover]
    #[verifier::rlimit(50)]
    fn execute_call_op(&self, runtime: &mut RuntimeInner)
        requires
            old(runtime).wf(),
            is_call_op(*self),
        ensures
            final(runtime)@ == exec_spec(*self, old(runtime)@),
            final(runtime).wf(),
    {
        let ins = *self;
        match ins {
            MemoryBlock::RESOLVED_INVOKEVIRTUAL(ind) => {
                if ind >= runtime.visit_instructions().len() {
                    runtime.set_trap(TrapError::BadInvokeTarget);
                } else {
                    let instruction = runtime.visit_instructions()[ind];
                    match instruction {
                        MemoryBlock::METHODHEADER { n_args, n_vars } => {
                            if runtime.stack_len() < n_args as usize {
                                runtime.set_trap(TrapError::StackUnderflow);
                            } else {
                                runtime.push_frame(n_vars, n_args);
                                runtime.set_pc(ind);
                            }
                        },
                        _ => {
                            runtime.set_trap(TrapError::BadInvokeTarget);
                        },
                    }
                }
                proof {
                    assert(runtime@ =~= exec_spec(*self, old(runtime)@));
                }
            },
            MemoryBlock::IRETURN => {
                if runtime.stack_len() < 1 {
                    runtime.set_trap(TrapError::StackUnderflow);
                } else if runtime.frames().len() < 2 {
                    runtime.set_trap(TrapError::StackUnderflow);
                } else {
                    let return_value = runtime.stack_pop();
                    runtime.pop_frame();
                    runtime.stack_push(return_value);
                }
                proof {
                    assert(runtime@ =~= exec_spec(*self, old(runtime)@));
                }
            },
            MemoryBlock::METHODHEADER { .. } => {
                runtime.set_trap(TrapError::ErrInstruction);
                proof {
                    assert(runtime@ =~= exec_spec(*self, old(runtime)@));
                }
            },
            MemoryBlock::Delayed(..) => {
                runtime.set_trap(TrapError::ErrInstruction);
                proof {
                    assert(runtime@ =~= exec_spec(*self, old(runtime)@));
                }
            },
            _ => {
                proof {
                    assert(false);
                }
            },
        }
    }

}

/// Popping twice then looking at what is left: the stack without its top
/// two words is its prefix of that length.
proof fn lemma_two_pops(s: Seq<i32>)
    requires
        s.len() >= 2,
    ensures
        s.drop_last().drop_last() =~= s.take(s.len() - 2),
{
}

/// The state of a parse in progress: the instructions and mapping built so
/// far, the text bytes with the cursor into them, and the classified
/// constant pool.
pub struct IJVMParser {
    pub blocks: Vec<MemoryBlock>,
    pub mappings: Vec<usize>,
    pub data: Vec<u8>,
    pub pos: usize,
    pub constants: Vec<ConstantKind>,
}

impl IJVMParser {
    /// Whether some constant-pool entry lists byte offset `pos` as a method
    /// reference.
    fn contains_method_ref(&self, pos: usize) -> (r: bool)
        ensures
            r == is_header_at(self.constants@, pos as int),
    {
        let mut k: usize = 0;
        while k < self.constants.len()
            invariant
                k <= self.constants@.len(),
                forall|j: int|
                    0 <= j < k ==> !((#[trigger] self.constants@[j])
                        matches ConstantKind::MethodRef(v) && v >= 0 && v as int == pos as int),
            decreases self.constants@.len() - k,
        {
            match self.constants[k] {
                ConstantKind::MethodRef(v) => {
                    if v >= 0 && v as usize == pos {
                        return true;
                    }
                },
                _ => {},
            }
            k = k + 1;
        }
        false
    }

    /// Reads the next byte and advances the cursor.
    fn get_byte(&mut self) -> (r: u8)
        requires
            old(self).pos < old(self).data.len(),
        ensures
            r == old(self).data@[old(self).pos as int],
            *final(self) == (IJVMParser { pos: (old(self).pos + 1) as usize, ..*old(self) }),
    {
        let r = self.data[self.pos];
        self.pos = self.pos + 1;
        r
    }

    /// Reads a big-endian 16-bit word and advances the cursor.
    fn get_ushort(&mut self) -> (r: u16)
        requires
            old(self).pos + 2 <= old(self).data.len(),
        ensures
            r == be_u16(old(self).data@, old(self).pos as int),
            *final(self) == (IJVMParser { pos: (old(self).pos + 2) as usize, ..*old(self) }),
    {
        let hi = self.data[self.pos];
        let lo = self.data[self.pos + 1];
        self.pos = self.pos + 2;
        (hi as u16) * 256 + (lo as u16)
    }

    /// Reads a big-endian 16-bit word as a signed offset.
    fn get_short(&mut self) -> (r: i16)
        requires
            old(self).pos + 2 <= old(self).data.len(),
        ensures
            r == be_i16(old(self).data@, old(self).pos as int),
            *final(self) == (IJVMParser { pos: (old(self).pos + 2) as usize, ..*old(self) }),
    {
        let v = self.get_ushort();
        #[verifier::truncate] (v as i16)
    }

    /// Decodes the instruction at the cursor, advancing the cursor over the
    /// bytes it consumes.
    pub fn parse_memory_block(&mut self) -> (r: Result<MemoryBlock, LoadError>)
        requires
            old(self).pos < old(self).data.len(),
        ensures
            final(self).blocks == old(self).blocks,
            final(self).mappings == old(self).mappings,
            final(self).data == old(self).data,
            final(self).constants == old(self).constants,
            (match decode_one(old(self).data@, old(self).constants@, old(self).pos as int) {
                Ok(p) => r == Ok::<MemoryBlock, LoadError>(p.0) && final(self).pos == old(
                    self,
                ).pos + p.1,
                Err(e) => r == Err::<MemoryBlock, LoadError>(e),
            }),
    {
        let ind = self.pos;
        if self.contains_method_ref(ind) {
            if self.data.len() - self.pos >= 4 {
                let n_args = self.get_ushort();
                let n_vars = self.get_ushort();
                return Ok(MemoryBlock::METHODHEADER { n_args, n_vars });
            } else {
                return Err(LoadError::TruncatedBlock);
            }
        }
        let op = self.get_byte();
        match op {
            0x00 => Ok(MemoryBlock::NOP),
            0x57 => Ok(MemoryBlock::POP),
            0x59 => Ok(MemoryBlock::DUP),
            0x5F => Ok(MemoryBlock::SWAP),
            0x60 => Ok(MemoryBlock::IADD),
            0x64 => Ok(MemoryBlock::ISUB),
            0x7E => Ok(MemoryBlock::IAND),
            0xB0 => Ok(MemoryBlock::IOR),
            0xAC => Ok(MemoryBlock::IRETURN),
            0xFC => Ok(MemoryBlock::IN),
            0xFD => Ok(MemoryBlock::OUT),
            0xFE => Ok(MemoryBlock::ERR),
            0xFF => Ok(MemoryBlock::HALT),
            0x10 => {
                if self.pos < self.data.len() {
                    let b = self.get_byte();
                    Ok(MemoryBlock::BIPUSH(#[verifier::truncate] (b as i8)))
                } else {
                    Err(LoadError::TruncatedBlock)
                }
            },
            0x15 => {
                if self.pos < self.data.len() {
                    Ok(MemoryBlock::ILOAD(self.get_byte()))
                } else {
                    Err(LoadError::TruncatedBlock)
                }
            },
            0x36 => {
                if self.pos < self.data.len() {
                    Ok(MemoryBlock::ISTORE(self.get_byte()))
                } else {
                    Err(LoadError::TruncatedBlock)
                }
            },
            0x84 => {
                if self.data.len() - self.pos >= 2 {
                    let ident = self.get_byte();
                    let delta = self.get_byte();
                    Ok(MemoryBlock::IINC(ident, delta))
                } else {
                    Err(LoadError::TruncatedBlock)
                }
            },
            0x13 => {
                if self.data.len() - self.pos >= 2 {
                    let ci = self.get_ushort();
                    if (ci as usize) < self.constants.len() {
                        let ck = self.constants[ci as usize];
                        match ck {
                            ConstantKind::StackValue(v) => Ok(MemoryBlock::RESOLVED_LDC_W(v)),
                            ConstantKind::Either(v) => Ok(MemoryBlock::RESOLVED_LDC_W(v)),
                            _ => Err(LoadError::BadConstantKind),
                        }
                    } else {
                        Err(LoadError::BadConstantKind)
                    }
                } else {
                    Err(LoadError::TruncatedBlock)
                }
            },
            0x99 => {
                if self.data.len() - self.pos >= 2 {
                    Ok(MemoryBlock::Delayed(ResolveLater::IFEQ(self.get_short()), None))
                } else {
                    Err(LoadError::TruncatedBlock)
                }
            },
            0x9B => {
                if self.data.len() - self.pos >= 2 {
                    Ok(MemoryBlock::Delayed(ResolveLater::IFLT(self.get_short()), None))
                } else {
                    Err(LoadError::TruncatedBlock)
                }
            },
            0x9F => {
                if self.data.len() - self.pos >= 2 {
                    Ok(MemoryBlock::Delayed(ResolveLater::IF_ICMPEQ(self.get_short()), None))
                } else {
                    Err(LoadError::TruncatedBlock)
                }
            },
            0xA7 => {
                if self.data.len() - self.pos >= 2 {
                    Ok(MemoryBlock::Delayed(ResolveLater::GOTO(self.get_short()), None))
                } else {
                    Err(LoadError::TruncatedBlock)
                }
            },
            0xB6 => {
                if self.data.len() - self.pos >= 2 {
                    Ok(MemoryBlock::Delayed(ResolveLater::INVOKEVIRTUAL(self.get_ushort()), None))
                } else {
                    Err(LoadError::TruncatedBlock)
                }
            },
            0xC4 => {
                if self.pos < self.data.len() {
                    let w = self.get_byte();
                    match w {
                        0x15 => {
                            if self.data.len() - self.pos >= 2 {
                                Ok(MemoryBlock::WIDE(WideMemoryBlock::ILOAD(self.get_ushort())))
                            } else {
                                Err(LoadError::TruncatedBlock)
                            }
                        },
                        0x36 => {
                            if self.data.len() - self.pos >= 2 {
                                Ok(MemoryBlock::WIDE(WideMemoryBlock::ISTORE(self.get_ushort())))
                            } else {
                                Err(LoadError::TruncatedBlock)
                            }
                        },
                        0x84 => {
                            if self.data.len() - self.pos >= 3 {
                                let ident = self.get_ushort();
                                let delta = self.get_byte();
                                Ok(MemoryBlock::WIDE(WideMemoryBlock::IIINC(ident, delta)))
                            } else {
                                Err(LoadError::TruncatedBlock)
                            }
                        },
                        _ => Err(LoadError::InvalidWideOpcode),
                    }
                } else {
                    Err(LoadError::TruncatedBlock)
                }
            },
            c => {
                if self.data.len() - self.pos >= 3 {
                    let b1 = self.get_byte();
                    let n_args = (c as u16) * 256 + (b1 as u16);
                    let n_vars = self.get_ushort();
                    Ok(MemoryBlock::METHODHEADER { n_args, n_vars })
                } else {
                    Err(LoadError::TruncatedBlock)
                }
            },
        }
    }

    /// Resolves the raw byte offset of the branch at instruction index
    /// `current` into a pre-decremented target instruction index.
    fn get_target(&self, current: usize, offset: i16) -> (r: Result<InstructionRef, LoadError>)
        ensures
            r == branch_target(self.mappings@, current as int, offset as int),
    {
        let n = self.mappings.len();
        let mut k: usize = 0;
        while k < n
            invariant
                k <= n,
                n == self.mappings@.len(),
                forall|j: int| 0 <= j < k ==> self.mappings@[j] != current,
            decreases n - k,
        {
            if self.mappings[k] == current {
                proof {
                    lemma_first_occ_found(self.mappings@, current, k as int);
                }
                if offset >= 0 {
                    let off = offset as usize;
                    if off > n - 1 - k {
                        return Err(LoadError::BadBranchTarget);
                    }
                    let t = self.mappings[k + off];
                    if t == 0 {
                        return Err(LoadError::BadBranchTarget);
                    }
                    return Ok(t - 1);
                } else {
                    let off = (-(offset as i32)) as usize;
                    if off > k {
                        return Err(LoadError::BadBranchTarget);
                    }
                    let t = self.mappings[k - off];
                    if t == 0 {
                        return Err(LoadError::BadBranchTarget);
                    }
                    return Ok(t - 1);
                }
            }
            k = k + 1;
        }
        proof {
            lemma_first_occ_none(self.mappings@, current);
        }
        Err(LoadError::BadBranchTarget)
    }

    /// Resolves the constant index of an `INVOKEVIRTUAL` into the
    /// instruction index of the method header it names.
    fn get_invoke_target(&self, ci: u16) -> (r: Result<InstructionRef, LoadError>)
        ensures
            r == invoke_target(self.mappings@, self.constants@, ci as int),
    {
        if (ci as usize) < self.constants.len() {
            let ck = self.constants[ci as usize];
            match ck {
                ConstantKind::MethodRef(v) => {
                    if v >= 0 && (v as usize) < self.mappings.len() {
                        Ok(self.mappings[v as usize])
                    } else {
                        Err(LoadError::BadInvokeTarget)
                    }
                },
                ConstantKind::Either(v) => {
                    if v >= 0 && (v as usize) < self.mappings.len() {
                        Ok(self.mappings[v as usize])
                    } else {
                        Err(LoadError::BadInvokeTarget)
                    }
                },
                _ => Err(LoadError::BadConstantKind),
            }
        } else {
            Err(LoadError::BadConstantKind)
        }
    }

    /// Runs both passes over the text bytes: decode every instruction while
    /// recording the byte-to-instruction mapping, then rewrite every
    /// placeholder into its resolved target.
    pub fn parse_iter(data: Vec<u8>, constants: Vec<ConstantKind>) -> (r: Result<
        Vec<MemoryBlock>,
        LoadError,
    >)
        ensures
            (match parse_spec(data@, constants@) {
                Ok(s) => r matches Ok(v) && v@ == s,
                Err(e) => r == Err::<Vec<MemoryBlock>, LoadError>(e),
            }),
    {
        let ghost text = data@;
        let ghost cs = constants@;
        let mut parser = IJVMParser {
            blocks: Vec::new(),
            mappings: Vec::new(),
            data,
            pos: 0,
            constants,
        };
        while parser.pos < parser.data.len()
            invariant
                parser.pos <= parser.data.len(),
                text == data@,
                cs == constants@,
                parser.data@ == text,
                parser.constants@ == cs,
                decode_from(text, cs, 0, Seq::empty(), Seq::empty()) == decode_from(
                    text,
                    cs,
                    parser.pos as int,
                    parser.blocks@,
                    parser.mappings@,
                ),
            decreases parser.data@.len() - parser.pos,
        {
            let ghost start_blocks = parser.blocks@;
            let ghost start_map = parser.mappings@;
            let start = parser.pos;
            let block = match parser.parse_memory_block() {
                Ok(b) => b,
                Err(e) => {
                    return Err(e);
                },
            };
            proof {
                lemma_decode_one_bounds(text, cs, start as int);
            }
            parser.blocks.push(block);
            let idx = parser.blocks.len() - 1;
            let mut j: usize = start;
            while j < parser.pos
                invariant
                    start <= j <= parser.pos,
                    start < text.len(),
                    idx as int == start_blocks.len(),
                    decode_one(text, cs, start as int) == Ok::<(MemoryBlock, int), LoadError>(
                        (block, parser.pos - start),
                    ),
                    decode_from(text, cs, 0, Seq::empty(), Seq::empty()) == decode_from(
                        text,
                        cs,
                        start as int,
                        start_blocks,
                        start_map,
                    ),
                    parser.mappings@ =~= start_map + Seq::new(
                        (j - start) as nat,
                        |i: int| idx,
                    ),
                    parser.blocks@ == start_blocks.push(block),
                    parser.data@ == text,
                    parser.constants@ == cs,
                    parser.pos <= parser.data.len(),
                decreases parser.pos - j,
            {
                parser.mappings.push(idx);
                proof {
                    assert(parser.mappings@ =~= start_map + Seq::new(
                        (j + 1 - start) as nat,
                        |i: int| idx,
                    ));
                }
                j = j + 1;
            }
            proof {
                let k = parser.pos - start;
                assert(parser.mappings@ =~= start_map + Seq::new(
                    k as nat,
                    |i: int| start_blocks.len() as usize,
                ));
                assert(decode_from(text, cs, start as int, start_blocks, start_map)
                    == decode_from(
                    text,
                    cs,
                    parser.pos as int,
                    parser.blocks@,
                    parser.mappings@,
                ));
            }
        }
        let ghost bs = parser.blocks@;
        let ghost mp = parser.mappings@;
        proof {
            assert(decode_from(text, cs, 0, Seq::empty(), Seq::empty()) == Ok::<
                (Seq<MemoryBlock>, Seq<usize>),
                LoadError,
            >((bs, mp)));
        }
        let mut resolved: Vec<MemoryBlock> = Vec::new();
        let mut i: usize = 0;
        let n = parser.blocks.len();
        while i < n
            invariant
                i <= n,
                n == parser.blocks@.len(),
                text == data@,
                cs == constants@,
                parser.blocks@ == bs,
                parser.mappings@ == mp,
                parser.constants@ == cs,
                parser.data@ == text,
                decode_from(text, cs, 0, Seq::empty(), Seq::empty()) == Ok::<
                    (Seq<MemoryBlock>, Seq<usize>),
                    LoadError,
                >((bs, mp)),
                resolve_from(bs, mp, cs, 0, Seq::empty()) == resolve_from(
                    bs,
                    mp,
                    cs,
                    i as int,
                    resolved@,
                ),
            decreases n - i,
        {
            let b = parser.blocks[i];
            let rb = match b {
                MemoryBlock::Delayed(rl, _reference) => {
                    match rl {
                        ResolveLater::GOTO(d) => match parser.get_target(i, d) {
                            Ok(t) => MemoryBlock::RESOLVED_GOTO(t),
                            Err(e) => {
                                return Err(e);
                            },
                        },
                        ResolveLater::IFEQ(d) => match parser.get_target(i, d) {
                            Ok(t) => MemoryBlock::RESOLVED_IFEQ(t),
                            Err(e) => {
                                return Err(e);
                            },
                        },
                        ResolveLater::IFLT(d) => match parser.get_target(i, d) {
                            Ok(t) => MemoryBlock::RESOLVED_IFLT(t),
                            Err(e) => {
                                return Err(e);
                            },
                        },
                        ResolveLater::IF_ICMPEQ(d) => match parser.get_target(i, d) {
                            Ok(t) => MemoryBlock::RESOLVED_IF_ICMPEQ(t),
                            Err(e) => {
                                return Err(e);
                            },
                        },
                        ResolveLater::INVOKEVIRTUAL(ci) => match parser.get_invoke_target(ci) {
                            Ok(t) => MemoryBlock::RESOLVED_INVOKEVIRTUAL(t),
                            Err(e) => {
                                return Err(e);
                            },
                        },
                    }
                },
                other => other,
            };
            resolved.push(rb);
            i = i + 1;
        }
        Ok(resolved)
    }
}

} // verus!
