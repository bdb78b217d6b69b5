//! Constant classification, the runtime state, and the execution model.
//!
//! The heart of this module is `step_spec`, the mathematical transition
//! function of the machine: every way of driving the runtime (`step`,
//! `steps`, `run`) is specified as iterating it. An instruction that cannot
//! be carried out (stack underflow or overflow, a call aimed at something
//! that is no method header, the `ERR` opcode) traps: the trap is recorded,
//! the run finishes, and `reset` recovers the runtime.

use vstd::prelude::*;

use crate::ijvm;
use crate::ijvm::be_u32;
use crate::ijvm::FrameView;
use crate::instructions::be_u16;
use crate::instructions::parse_spec;
use crate::instructions::IJVMParser;
use crate::instructions::MemoryBlock;
use crate::instructions::WideMemoryBlock;
use crate::tiny::frame_locals;
use crate::tiny::local_at;
use crate::tiny::local_store;
use crate::tiny::sentinel_frame;
use crate::tiny::FrameStack;
use crate::tiny::Stack;
use crate::tiny::STACK_SIZE;

verus! {

/// A 32-bit signed constant of the constant pool.
pub type Constant = i32;

/// Index of a decoded instruction; the program counter addresses these, not
/// bytes.
pub type InstructionRef = usize;

/// Failures of the loader: the runtime is not constructed.
#[derive(Clone, Copy, PartialEq, Eq, Structural, Debug)]
pub enum LoadError {
    /// The magic word at the start of the image mismatches.
    InvalidHeader,
    /// The image or an instruction's operands end early.
    TruncatedBlock,
    /// An opcode other than `ILOAD`, `ISTORE` or `IINC` follows `WIDE`.
    InvalidWideOpcode,
    /// `LDC_W` names a constant not usable as a stack value, or
    /// `INVOKEVIRTUAL` one not usable as a method reference, or the constant
    /// index is out of range.
    BadConstantKind,
    /// A branch offset leaves the text, or the branch lands on the first
    /// instruction, whose pre-decremented index is not representable.
    BadBranchTarget,
    /// A method reference's byte offset leaves the text.
    BadInvokeTarget,
}

/// Fatal traps of a run. A trap finishes the run; `reset` recovers the
/// runtime to a clean state.
#[derive(Clone, Copy, PartialEq, Eq, Structural, Debug)]
pub enum TrapError {
    /// An opcode pops more than the operand or frame stack holds.
    StackUnderflow,
    /// A push beyond the operand stack's capacity.
    StackOverflow,
    /// `INVOKEVIRTUAL` aims at an instruction that is no method header.
    BadInvokeTarget,
    /// The `ERR` opcode, or a block that may not be executed.
    ErrInstruction,
}

/// A constant-pool entry together with the uses the classifier saw for it.
/// Transitions are monotonic: `None` to `MethodRef` or `StackValue`, and
/// either of those to `Either` when the constant is used both ways.
#[derive(Clone, Copy, PartialEq, Eq, Structural, Debug)]
pub enum ConstantKind {
    Unused(Constant),
    MethodRef(Constant),
    StackValue(Constant),
    Either(Constant),
}

impl ConstantKind {
    /// The carried value, whatever the tag.
    pub open spec fn spec_value(self) -> Constant {
        match self {
            ConstantKind::Unused(x) => x,
            ConstantKind::MethodRef(x) => x,
            ConstantKind::StackValue(x) => x,
            ConstantKind::Either(x) => x,
        }
    }

    /// Whether `LDC_W` may resolve against this entry.
    pub open spec fn is_stack_usable(self) -> bool {
        self is StackValue || self is Either
    }

    /// Whether `INVOKEVIRTUAL` may resolve against this entry.
    pub open spec fn is_method_usable(self) -> bool {
        self is MethodRef || self is Either
    }

    /// The value of a classified entry.
    pub fn value(&self) -> (r: Constant)
        requires
            !(*self is Unused),
        ensures
            r == self.spec_value(),
    {
        match self {
            ConstantKind::MethodRef(x) => *x,
            ConstantKind::StackValue(x) => *x,
            ConstantKind::Either(x) => *x,
            ConstantKind::Unused(x) => *x,
        }
    }

    /// The value of any entry, classified or not.
    pub fn unchecked_value(&self) -> (r: Constant)
        ensures
            r == self.spec_value(),
    {
        match self {
            ConstantKind::MethodRef(x) => *x,
            ConstantKind::StackValue(x) => *x,
            ConstantKind::Either(x) => *x,
            ConstantKind::Unused(x) => *x,
        }
    }

    /// The value of an entry usable as a method reference.
    pub fn unwrap_method_ref(&self) -> (r: Constant)
        requires
            self.is_method_usable(),
        ensures
            r == self.spec_value(),
    {
        match self {
            ConstantKind::MethodRef(x) => *x,
            ConstantKind::Either(x) => *x,
            ConstantKind::StackValue(x) => *x,
            ConstantKind::Unused(x) => *x,
        }
    }

    /// The value of an entry usable as a stack value.
    pub fn unwrap_stack_value(&self) -> (r: Constant)
        requires
            self.is_stack_usable(),
        ensures
            r == self.spec_value(),
    {
        match self {
            ConstantKind::StackValue(x) => *x,
            ConstantKind::Either(x) => *x,
            ConstantKind::MethodRef(x) => *x,
            ConstantKind::Unused(x) => *x,
        }
    }

    /// The entry after the classifier sees a use as a method reference.
    pub fn as_method(self) -> (r: ConstantKind)
        ensures
            r == self.spec_as_method(),
    {
        match self {
            ConstantKind::StackValue(x) => ConstantKind::Either(x),
            ConstantKind::Unused(x) => ConstantKind::MethodRef(x),
            _ => self,
        }
    }

    /// The entry after the classifier sees a use as a stack value.
    pub fn as_stack(self) -> (r: ConstantKind)
        ensures
            r == self.spec_as_stack(),
    {
        match self {
            ConstantKind::MethodRef(x) => ConstantKind::Either(x),
            ConstantKind::Unused(x) => ConstantKind::StackValue(x),
            _ => self,
        }
    }

    pub open spec fn spec_as_method(self) -> ConstantKind {
        match self {
            ConstantKind::StackValue(x) => ConstantKind::Either(x),
            ConstantKind::Unused(x) => ConstantKind::MethodRef(x),
            _ => self,
        }
    }

    pub open spec fn spec_as_stack(self) -> ConstantKind {
        match self {
            ConstantKind::MethodRef(x) => ConstantKind::Either(x),
            ConstantKind::Unused(x) => ConstantKind::StackValue(x),
            _ => self,
        }
    }

    /// Whether the classifier saw no use of this entry.
    pub fn is_none(&self) -> (r: bool)
        ensures
            r == (*self is Unused),
    {
        matches!(self, ConstantKind::Unused(_))
    }
}

/// The observable state of the runtime: the immutable decoded program and
/// constant pool, the mutable machine state, and the modelled input and
/// output byte streams.
#[verifier::ext_equal]
pub ghost struct RtView {
    pub program: Seq<MemoryBlock>,
    pub constants: Seq<i32>,
    pub stack: Seq<i32>,
    pub frames: Seq<FrameView>,
    pub pc: nat,
    pub finished: bool,
    pub trap: Option<TrapError>,
    pub input: Seq<u8>,
    pub input_pos: nat,
    pub output: Seq<u8>,
}

/// The state after trapping: the trap recorded and the run finished, all
/// else untouched.
pub open spec fn trapped(s: RtView, e: TrapError) -> RtView {
    RtView { trap: Some(e), finished: true, ..s }
}

/// The low byte of a word, what `OUT` emits.
pub open spec fn low_byte(v: i32) -> u8 {
    (v & 0xFF) as u8
}

/// Basic well-formedness of a runtime state: the sentinel frame is present,
/// the stack respects its capacity, and the input cursor is inside the
/// input.
pub open spec fn rt_wf(s: RtView) -> bool {
    &&& s.frames.len() >= 1
    &&& s.stack.len() <= STACK_SIZE
    &&& s.input_pos <= s.input.len()
}

/// The effect of one instruction on the state, program counter handling
/// aside: the dispatcher applies this and then increments the counter.
pub open spec fn exec_spec(ins: MemoryBlock, s: RtView) -> RtView {
    match ins {
        MemoryBlock::IADD => if s.stack.len() < 2 {
            trapped(s, TrapError::StackUnderflow)
        } else {
            let top = s.stack.last();
            let second = s.stack[s.stack.len() - 2];
            RtView { stack: s.stack.take(s.stack.len() - 2).push(top.wrapping_add(second)), ..s }
        },
        MemoryBlock::ISUB => if s.stack.len() < 2 {
            trapped(s, TrapError::StackUnderflow)
        } else {
            let top = s.stack.last();
            let second = s.stack[s.stack.len() - 2];
            RtView { stack: s.stack.take(s.stack.len() - 2).push(second.wrapping_sub(top)), ..s }
        },
        MemoryBlock::IAND => if s.stack.len() < 2 {
            trapped(s, TrapError::StackUnderflow)
        } else {
            let top = s.stack.last();
            let second = s.stack[s.stack.len() - 2];
            RtView { stack: s.stack.take(s.stack.len() - 2).push(top & second), ..s }
        },
        MemoryBlock::IOR => if s.stack.len() < 2 {
            trapped(s, TrapError::StackUnderflow)
        } else {
            let top = s.stack.last();
            let second = s.stack[s.stack.len() - 2];
            RtView { stack: s.stack.take(s.stack.len() - 2).push(top | second), ..s }
        },
        MemoryBlock::BIPUSH(v) => if s.stack.len() >= STACK_SIZE {
            trapped(s, TrapError::StackOverflow)
        } else {
            RtView { stack: s.stack.push(v as i32), ..s }
        },
        MemoryBlock::OUT => if s.stack.len() < 1 {
            trapped(s, TrapError::StackUnderflow)
        } else {
            RtView {
                stack: s.stack.drop_last(),
                output: s.output.push(low_byte(s.stack.last())),
                ..s
            }
        },
        MemoryBlock::IN => if s.stack.len() >= STACK_SIZE {
            trapped(s, TrapError::StackOverflow)
        } else if s.input_pos < s.input.len() {
            RtView {
                stack: s.stack.push(s.input[s.input_pos as int] as i32),
                input_pos: s.input_pos + 1,
                ..s
            }
        } else {
            RtView { stack: s.stack.push(0i32), ..s }
        },
        MemoryBlock::SWAP => if s.stack.len() < 2 {
            trapped(s, TrapError::StackUnderflow)
        } else {
            let top = s.stack.last();
            let second = s.stack[s.stack.len() - 2];
            RtView { stack: s.stack.take(s.stack.len() - 2).push(top).push(second), ..s }
        },
        MemoryBlock::POP => if s.stack.len() < 1 {
            trapped(s, TrapError::StackUnderflow)
        } else {
            RtView { stack: s.stack.drop_last(), ..s }
        },
        MemoryBlock::HALT => RtView { finished: true, ..s },
        MemoryBlock::DUP => if s.stack.len() < 1 {
            trapped(s, TrapError::StackUnderflow)
        } else if s.stack.len() >= STACK_SIZE {
            trapped(s, TrapError::StackOverflow)
        } else {
            RtView { stack: s.stack.push(s.stack.last()), ..s }
        },
        MemoryBlock::RESOLVED_GOTO(t) => RtView { pc: t as nat, ..s },
        MemoryBlock::RESOLVED_IFEQ(t) => if s.stack.len() < 1 {
            trapped(s, TrapError::StackUnderflow)
        } else {
            RtView {
                stack: s.stack.drop_last(),
                pc: if s.stack.last() == 0i32 {
                    t as nat
                } else {
                    s.pc
                },
                ..s
            }
        },
        MemoryBlock::RESOLVED_IFLT(t) => if s.stack.len() < 1 {
            trapped(s, TrapError::StackUnderflow)
        } else {
            RtView {
                stack: s.stack.drop_last(),
                pc: if s.stack.last() < 0i32 {
                    t as nat
                } else {
                    s.pc
                },
                ..s
            }
        },
        MemoryBlock::RESOLVED_IF_ICMPEQ(t) => if s.stack.len() < 2 {
            trapped(s, TrapError::StackUnderflow)
        } else {
            RtView {
                stack: s.stack.take(s.stack.len() - 2),
                pc: if s.stack.last() == s.stack[s.stack.len() - 2] {
                    t as nat
                } else {
                    s.pc
                },
                ..s
            }
        },
        MemoryBlock::RESOLVED_LDC_W(c) => if s.stack.len() >= STACK_SIZE {
            trapped(s, TrapError::StackOverflow)
        } else {
            RtView { stack: s.stack.push(c), ..s }
        },
        MemoryBlock::ILOAD(k) => if s.frames.len() < 1 {
            trapped(s, TrapError::StackUnderflow)
        } else if s.stack.len() >= STACK_SIZE {
            trapped(s, TrapError::StackOverflow)
        } else {
            RtView { stack: s.stack.push(local_at(s.frames.last().vars, k as int)), ..s }
        },
        MemoryBlock::ISTORE(k) => if s.stack.len() < 1 || s.frames.len() < 1 {
            trapped(s, TrapError::StackUnderflow)
        } else {
            RtView {
                stack: s.stack.drop_last(),
                frames: s.frames.update(
                    s.frames.len() - 1,
                    (FrameView {
                        vars: local_store(s.frames.last().vars, k as int, s.stack.last()),
                        ..s.frames.last()
                    }),
                ),
                ..s
            }
        },
        MemoryBlock::IINC(k, d) => if s.frames.len() < 1 {
            trapped(s, TrapError::StackUnderflow)
        } else {
            RtView {
                frames: s.frames.update(
                    s.frames.len() - 1,
                    (FrameView {
                        vars: local_store(
                            s.frames.last().vars,
                            k as int,
                            local_at(s.frames.last().vars, k as int).wrapping_add(d as i32),
                        ),
                        ..s.frames.last()
                    }),
                ),
                ..s
            }
        },
        MemoryBlock::WIDE(w) => match w {
            WideMemoryBlock::ILOAD(k) => if s.frames.len() < 1 {
                trapped(s, TrapError::StackUnderflow)
            } else if s.stack.len() >= STACK_SIZE {
                trapped(s, TrapError::StackOverflow)
            } else {
                RtView { stack: s.stack.push(local_at(s.frames.last().vars, k as int)), ..s }
            },
            WideMemoryBlock::ISTORE(k) => if s.stack.len() < 1 || s.frames.len() < 1 {
                trapped(s, TrapError::StackUnderflow)
            } else {
                RtView {
                    stack: s.stack.drop_last(),
                    frames: s.frames.update(
                        s.frames.len() - 1,
                        (FrameView {
                            vars: local_store(s.frames.last().vars, k as int, s.stack.last()),
                            ..s.frames.last()
                        }),
                    ),
                    ..s
                }
            },
            WideMemoryBlock::IIINC(k, d) => if s.frames.len() < 1 {
                trapped(s, TrapError::StackUnderflow)
            } else {
                RtView {
                    frames: s.frames.update(
                        s.frames.len() - 1,
                        (FrameView {
                            vars: local_store(
                                s.frames.last().vars,
                                k as int,
                                local_at(s.frames.last().vars, k as int).wrapping_add(d as i32),
                            ),
                            ..s.frames.last()
                        }),
                    ),
                    ..s
                }
            },
        },
        MemoryBlock::RESOLVED_INVOKEVIRTUAL(ind) => if ind >= s.program.len() {
            trapped(s, TrapError::BadInvokeTarget)
        } else {
            match s.program[ind as int] {
                MemoryBlock::METHODHEADER { n_args, n_vars } => if s.stack.len() < n_args {
                    trapped(s, TrapError::StackUnderflow)
                } else {
                    let entry = s.stack.len() - n_args;
                    RtView {
                        stack: s.stack.take(entry),
                        frames: s.frames.push(
                            FrameView {
                                starting_stack_length: entry as nat,
                                vars: frame_locals(
                                    n_vars as int,
                                    s.stack.subrange(entry, s.stack.len() as int),
                                ),
                                restore_pc: s.pc,
                            },
                        ),
                        pc: ind as nat,
                        ..s
                    }
                },
                _ => trapped(s, TrapError::BadInvokeTarget),
            }
        },
        MemoryBlock::IRETURN => if s.stack.len() < 1 || s.frames.len() < 2 {
            trapped(s, TrapError::StackUnderflow)
        } else {
            let ret = s.stack.last();
            let f = s.frames.last();
            let popped = s.stack.drop_last();
            let truncated = if popped.len() > f.starting_stack_length {
                popped.take(f.starting_stack_length as int)
            } else {
                popped
            };
            RtView {
                stack: truncated.push(ret),
                frames: s.frames.drop_last(),
                pc: f.restore_pc,
                ..s
            }
        },
        MemoryBlock::ERR => trapped(s, TrapError::ErrInstruction),
        MemoryBlock::NOP => s,
        MemoryBlock::METHODHEADER { .. } => trapped(s, TrapError::ErrInstruction),
        MemoryBlock::Delayed(..) => trapped(s, TrapError::ErrInstruction),
    }
}

/// One step of the machine: fetch at the program counter, execute, then
/// increment the counter; the run finishes when the counter passes the last
/// instruction. A finished or trapped state steps to itself.
pub open spec fn step_spec(s: RtView) -> RtView {
    if s.finished || s.trap is Some {
        s
    } else if s.pc >= s.program.len() {
        RtView { finished: true, ..s }
    } else {
        let s1 = exec_spec(s.program[s.pc as int], s);
        if s1.trap is Some {
            s1
        } else if s1.pc < s1.program.len() {
            let s2 = RtView { pc: (s1.pc + 1) as nat, ..s1 };
            if s2.pc >= s2.program.len() {
                RtView { finished: true, ..s2 }
            } else {
                s2
            }
        } else {
            RtView { finished: true, ..s1 }
        }
    }
}

/// The state after `n` steps.
pub open spec fn iterate(s: RtView, n: nat) -> RtView
    decreases n,
{
    if n == 0 {
        s
    } else {
        iterate(step_spec(s), (n - 1) as nat)
    }
}

/// Iteration unrolls at the back as well as at the front.
pub proof fn lemma_iterate_snoc(s: RtView, n: nat)
    ensures
        iterate(s, n + 1) == step_spec(iterate(s, n)),
    decreases n,
{
    assert(iterate(s, n + 1) == iterate(step_spec(s), n));
    if n > 0 {
        assert(iterate(s, n) == iterate(step_spec(s), (n - 1) as nat));
        lemma_iterate_snoc(step_spec(s), (n - 1) as nat);
    }
}

/// A step preserves well-formedness.
pub proof fn lemma_step_spec_wf(s: RtView)
    requires
        rt_wf(s),
    ensures
        rt_wf(step_spec(s)),
{
}

/// The state of a freshly loaded or freshly reset runtime.
pub open spec fn fresh_state(
    program: Seq<MemoryBlock>,
    constants: Seq<i32>,
    input: Seq<u8>,
) -> RtView {
    RtView {
        program,
        constants,
        stack: Seq::empty(),
        frames: seq![sentinel_frame()],
        pc: 0,
        finished: false,
        trap: None,
        input,
        input_pos: 0,
        output: Seq::empty(),
    }
}

/// The mutable machine: the decoded program and constant pool, the operand
/// and frame stacks, the program counter, the finished flag and trap, and
/// the modelled input and output streams.
pub struct RuntimeInner {
    instructions: Vec<MemoryBlock>,
    constants: Vec<Constant>,
    frames: FrameStack,
    program_counter: usize,
    is_finished: bool,
    stack: Stack,
    trap: Option<TrapError>,
    in_stream: Vec<u8>,
    in_pos: usize,
    out_stream: Vec<u8>,
}

impl View for RuntimeInner {
    type V = RtView;

    closed spec fn view(&self) -> RtView {
        RtView {
            program: self.instructions@,
            constants: self.constants@,
            stack: self.stack@,
            frames: self.frames@,
            pc: self.program_counter as nat,
            finished: self.is_finished,
            trap: self.trap,
            input: self.in_stream@,
            input_pos: self.in_pos as nat,
            output: self.out_stream@,
        }
    }
}

impl RuntimeInner {
    /// Well-formedness of the machine state.
    pub open spec fn wf(&self) -> bool {
        rt_wf(self@)
    }

    pub fn set_pc(&mut self, pc: InstructionRef)
        ensures
            final(self)@ == (RtView { pc: pc as nat, ..old(self)@ }),
    {
        self.program_counter = pc;
        proof {
            assert(self@ =~= (RtView { pc: pc as nat, ..old(self)@ }));
        }
    }

    pub fn stack_pop(&mut self) -> (r: i32)
        requires
            old(self)@.stack.len() >= 1,
        ensures
            r == old(self)@.stack.last(),
            final(self)@ == (RtView { stack: old(self)@.stack.drop_last(), ..old(self)@ }),
    {
        let r = self.stack.pop();
        proof {
            assert(self@ =~= (RtView { stack: old(self)@.stack.drop_last(), ..old(self)@ }));
        }
        r
    }

    /// Truncates the operand stack to height `size`; a no-op when it is
    /// already at or below that height.
    pub fn pop_until_size(&mut self, size: usize)
        ensures
            final(self)@ == (RtView {
                stack: (if old(self)@.stack.len() > size {
                    old(self)@.stack.take(size as int)
                } else {
                    old(self)@.stack
                }),
                ..old(self)@
            }),
    {
        self.stack.pop_until_size(size);
        proof {
            assert(self@ =~= (RtView {
                stack: (if old(self)@.stack.len() > size {
                    old(self)@.stack.take(size as int)
                } else {
                    old(self)@.stack
                }),
                ..old(self)@
            }));
        }
    }

    pub fn stack_push(&mut self, value: i32)
        requires
            old(self)@.stack.len() < STACK_SIZE,
        ensures
            final(self)@ == (RtView { stack: old(self)@.stack.push(value), ..old(self)@ }),
    {
        self.stack.push(value);
        proof {
            assert(self@ =~= (RtView { stack: old(self)@.stack.push(value), ..old(self)@ }));
        }
    }

    pub fn stack_len(&self) -> (r: usize)
        ensures
            r == self@.stack.len(),
    {
        self.stack.len()
    }

    /// Exchanges the top two words of the operand stack.
    pub fn stack_swap(&mut self)
        requires
            old(self)@.stack.len() >= 2,
            old(self)@.stack.len() <= STACK_SIZE,
        ensures
            final(self)@ == (RtView {
                stack: old(self)@.stack.take(old(self)@.stack.len() - 2).push(
                    old(self)@.stack.last(),
                ).push(old(self)@.stack[old(self)@.stack.len() - 2]),
                ..old(self)@
            }),
    {
        let a = self.stack_pop();
        let b = self.stack_pop();
        self.stack_push(a);
        self.stack_push(b);
        proof {
            assert(old(self)@.stack.drop_last().drop_last() =~= old(self)@.stack.take(
                old(self)@.stack.len() - 2,
            ));
        }
    }

    /// The modelled input stream, in full.
    pub fn in_stream(&self) -> (r: &Vec<u8>)
        ensures
            r@ == self@.input,
    {
        &self.in_stream
    }

    /// The bytes emitted so far.
    pub fn out_stream(&self) -> (r: &Vec<u8>)
        ensures
            r@ == self@.output,
    {
        &self.out_stream
    }

    /// Reads the next byte of the modelled input, or zero at end of input.
    pub fn read_input_byte(&mut self) -> (r: i32)
        requires
            old(self)@.input_pos <= old(self)@.input.len(),
        ensures
            (if old(self)@.input_pos < old(self)@.input.len() {
                r == old(self)@.input[old(self)@.input_pos as int] as i32 && final(self)@
                    == (RtView { input_pos: old(self)@.input_pos + 1, ..old(self)@ })
            } else {
                r == 0i32 && *final(self) == *old(self)
            }),
    {
        if self.in_pos < self.in_stream.len() {
            let b = self.in_stream[self.in_pos];
            self.in_pos = self.in_pos + 1;
            proof {
                assert(self@ =~= (RtView { input_pos: old(self)@.input_pos + 1, ..old(self)@ }));
            }
            b as i32
        } else {
            0
        }
    }

    /// Appends the low byte of `value` to the modelled output.
    pub fn write_output_byte(&mut self, value: i32)
        ensures
            final(self)@ == (RtView {
                output: old(self)@.output.push(low_byte(value)),
                ..old(self)@
            }),
    {
        proof {
            assert(0 <= (value & 0xFF) < 256) by (bit_vector);
        }
        self.out_stream.push((value & 0xFF) as u8);
        proof {
            assert(self@ =~= (RtView {
                output: old(self)@.output.push(low_byte(value)),
                ..old(self)@
            }));
        }
    }

    /// Records a trap and finishes the run.
    pub fn set_trap(&mut self, e: TrapError)
        ensures
            final(self)@ == trapped(old(self)@, e),
    {
        self.trap = Some(e);
        self.is_finished = true;
        proof {
            assert(self@ =~= trapped(old(self)@, e));
        }
    }

    /// Finishes the run.
    pub fn halt(&mut self)
        ensures
            final(self)@ == (RtView { finished: true, ..old(self)@ }),
    {
        self.is_finished = true;
        proof {
            assert(self@ =~= (RtView { finished: true, ..old(self)@ }));
        }
    }

    pub fn constants(&self) -> (r: &Vec<Constant>)
        ensures
            r@ == self@.constants,
    {
        &self.constants
    }

    pub fn program_counter(&self) -> (r: usize)
        ensures
            r as nat == self@.pc,
    {
        self.program_counter
    }

    pub fn visit_stack(&self) -> (r: &Stack)
        ensures
            r@ == self@.stack,
    {
        &self.stack
    }

    pub fn visit_instructions(&self) -> (r: &Vec<MemoryBlock>)
        ensures
            r@ == self@.program,
    {
        &self.instructions
    }

    pub fn frames(&self) -> (r: &FrameStack)
        ensures
            r@ == self@.frames,
    {
        &self.frames
    }

    /// The current frame; always defined thanks to the sentinel.
    pub fn frame(&self) -> (r: &ijvm::Frame)
        requires
            self@.frames.len() >= 1,
        ensures
            r@ == self@.frames.last(),
    {
        self.frames.current_frame()
    }

    /// Stores into a local of the current frame.
    pub fn store_var(&mut self, var: u16, value: i32)
        requires
            old(self)@.frames.len() >= 1,
        ensures
            final(self)@ == (RtView {
                frames: old(self)@.frames.update(
                    old(self)@.frames.len() - 1,
                    (FrameView {
                        vars: local_store(old(self)@.frames.last().vars, var as int, value),
                        ..old(self)@.frames.last()
                    }),
                ),
                ..old(self)@
            }),
    {
        self.frames.store_var_top(var, value);
        proof {
            assert(self@ =~= (RtView {
                frames: old(self)@.frames.update(
                    old(self)@.frames.len() - 1,
                    (FrameView {
                        vars: local_store(old(self)@.frames.last().vars, var as int, value),
                        ..old(self)@.frames.last()
                    }),
                ),
                ..old(self)@
            }));
        }
    }

    /// Creates and enters a frame for a call: the top `arg_count` words
    /// leave the operand stack and become locals `0` to `arg_count - 1`, the
    /// entry height is the stack height after their removal, and the return
    /// index is the current program counter. Capturing the height after the
    /// arguments leave is deliberate: a matched return then lands exactly
    /// one word above the entry height, whatever the callee did.
    pub fn push_frame(&mut self, var_count: u16, arg_count: u16)
        requires
            arg_count <= old(self)@.stack.len(),
            old(self)@.stack.len() <= STACK_SIZE,
        ensures
            final(self)@ == (RtView {
                stack: old(self)@.stack.take(old(self)@.stack.len() - arg_count),
                frames: old(self)@.frames.push(
                    FrameView {
                        starting_stack_length: (old(self)@.stack.len() - arg_count) as nat,
                        vars: frame_locals(
                            var_count as int,
                            old(self)@.stack.subrange(
                                old(self)@.stack.len() - arg_count,
                                old(self)@.stack.len() as int,
                            ),
                        ),
                        restore_pc: old(self)@.pc,
                    },
                ),
                ..old(self)@
            }),
    {
        let args = self.stack.get_ref_top_n(arg_count as usize);
        let entry = self.stack.len();
        let rpc = self.program_counter;
        self.frames.push_frame(entry as u32, var_count as u32, rpc, &args);
        proof {
            assert(self@ =~= (RtView {
                stack: old(self)@.stack.take(old(self)@.stack.len() - arg_count),
                frames: old(self)@.frames.push(
                    FrameView {
                        starting_stack_length: (old(self)@.stack.len() - arg_count) as nat,
                        vars: frame_locals(
                            var_count as int,
                            old(self)@.stack.subrange(
                                old(self)@.stack.len() - arg_count,
                                old(self)@.stack.len() as int,
                            ),
                        ),
                        restore_pc: old(self)@.pc,
                    },
                ),
                ..old(self)@
            }));
        }
    }

    /// The trap of the current run, if one was hit.
    pub fn current_trap(&self) -> (r: Option<TrapError>)
        ensures
            r == self@.trap,
    {
        self.trap
    }

    /// Leaves the current frame: the program counter returns to the caller
    /// and the operand stack is truncated to the frame's entry height.
    pub fn pop_frame(&mut self)
        requires
            old(self)@.frames.len() >= 2,
        ensures
            final(self)@ == (RtView {
                stack: (if old(self)@.stack.len() > old(self)@.frames.last().starting_stack_length {
                    old(self)@.stack.take(old(self)@.frames.last().starting_stack_length as int)
                } else {
                    old(self)@.stack
                }),
                frames: old(self)@.frames.drop_last(),
                pc: old(self)@.frames.last().restore_pc,
                ..old(self)@
            }),
    {
        let frame = self.frames.pop_frame();
        let restore_pc = frame.restore_pc();
        let stack_len = frame.starting_stack_length() as usize;
        self.program_counter = restore_pc;
        self.stack.pop_until_size(stack_len);
        proof {
            assert(self@ =~= (RtView {
                stack: (if old(self)@.stack.len() > old(self)@.frames.last().starting_stack_length {
                    old(self)@.stack.take(old(self)@.frames.last().starting_stack_length as int)
                } else {
                    old(self)@.stack
                }),
                frames: old(self)@.frames.drop_last(),
                pc: old(self)@.frames.last().restore_pc,
                ..old(self)@
            }));
        }
    }
}

/// The runtime: the decoded program (one copy for the dispatcher, one
/// inside the machine state) and the mutable machine.
pub struct Runtime {
    pub instructions: Vec<MemoryBlock>,
    pub inner: RuntimeInner,
}

impl Runtime {
    /// Well-formedness: the dispatcher's copy of the program matches the
    /// machine's, and the machine state is well-formed.
    pub open spec fn wf(&self) -> bool {
        self.inner.wf() && self.instructions@ == self.inner@.program
    }

    /// One step of the dispatch loop: fetch the instruction at the program
    /// counter, execute it, then increment the counter; the run finishes
    /// when the counter passes the last instruction. Exactly `step_spec`.
    pub fn step(&mut self)
        requires
            old(self).wf(),
        ensures
            final(self).wf(),
            final(self).inner@ == step_spec(old(self).inner@),
    {
        proof {
            lemma_step_spec_wf(old(self).inner@);
        }
        if self.inner.is_finished {
            return;
        }
        if self.inner.trap.is_some() {
            return;
        }
        let pc = self.inner.program_counter;
        if pc >= self.instructions.len() {
            self.inner.is_finished = true;
            proof {
                assert(self.inner@ =~= step_spec(old(self).inner@));
            }
            return;
        }
        let instruction = self.instructions[pc];
        instruction.execute(&mut self.inner);
        if self.inner.trap.is_some() {
            return;
        }
        if self.inner.program_counter < self.instructions.len() {
            self.inner.program_counter = self.inner.program_counter + 1;
            if self.inner.program_counter >= self.instructions.len() {
                self.inner.is_finished = true;
            }
        } else {
            self.inner.is_finished = true;
        }
        proof {
            assert(self.inner@ =~= step_spec(old(self).inner@));
        }
    }

    /// Runs `count` steps; steps on a finished or trapped machine change
    /// nothing.
    pub fn steps(&mut self, count: usize)
        requires
            old(self).wf(),
        ensures
            final(self).wf(),
            final(self).inner@ == iterate(old(self).inner@, count as nat),
    {
        let mut i: usize = 0;
        while i < count
            invariant
                i <= count,
                self.wf(),
                self.inner@ == iterate(old(self).inner@, i as nat),
            decreases count - i,
        {
            self.step();
            proof {
                lemma_iterate_snoc(old(self).inner@, i as nat);
            }
            i = i + 1;
        }
    }

    /// Runs until the program halts, traps, or falls off the end of the
    /// decoded program. A step bound far beyond anything reachable makes the
    /// loop provably terminating; a run that exhausts it stops unfinished.
    pub fn run(&mut self)
        requires
            old(self).wf(),
        ensures
            final(self).wf(),
            (exists|n: nat|
                n <= usize::MAX as nat && final(self).inner@ == iterate(old(self).inner@, n) && (
                final(self).inner@.finished || n == usize::MAX as nat)),
    {
        let ghost mut n: nat = 0;
        let mut fuel: usize = usize::MAX;
        while !self.inner.is_finished && fuel > 0
            invariant
                self.wf(),
                self.inner@ == iterate(old(self).inner@, n),
                n + fuel == usize::MAX as nat,
            decreases fuel,
        {
            self.step();
            proof {
                lemma_iterate_snoc(old(self).inner@, n);
                n = n + 1;
            }
            fuel = fuel - 1;
        }
    }

    /// The decoded program, for read-only inspection.
    pub fn visit_instructions(&self) -> (r: &Vec<MemoryBlock>)
        requires
            self.wf(),
        ensures
            r@ == self.inner@.program,
    {
        &self.instructions
    }

    /// Returns the runtime to its freshly loaded state: operand stack and
    /// output cleared, frames reduced to a clean sentinel, program counter,
    /// input cursor, trap and finished flag cleared. The decoded program and
    /// constant pool stay, so the same program replays identically.
    pub fn reset(&mut self)
        requires
            old(self).wf(),
        ensures
            final(self).wf(),
            final(self).inner@ == fresh_state(
                old(self).inner@.program,
                old(self).inner@.constants,
                old(self).inner@.input,
            ),
    {
        self.inner.program_counter = 0;
        self.inner.stack.clear();
        self.inner.frames.clear();
        self.inner.is_finished = false;
        self.inner.trap = None;
        self.inner.in_pos = 0;
        self.inner.out_stream.clear();
        proof {
            assert(self.inner@ =~= fresh_state(
                old(self).inner@.program,
                old(self).inner@.constants,
                old(self).inner@.input,
            ));
        }
    }

    /// The top of the operand stack, or zero when it is empty.
    pub fn tos(&self) -> (r: i32)
        ensures
            r == (if self.inner@.stack.len() == 0 {
                0i32
            } else {
                self.inner@.stack.last()
            }),
    {
        self.inner.stack.peek_top()
    }

    pub fn constants(&self) -> (r: &Vec<Constant>)
        ensures
            r@ == self.inner@.constants,
    {
        self.inner.constants()
    }

    pub fn is_finished(&self) -> (r: bool)
        ensures
            r == self.inner@.finished,
    {
        self.inner.is_finished
    }

    /// The trap of the current run, if one was hit.
    pub fn trap(&self) -> (r: Option<TrapError>)
        ensures
            r == self.inner@.trap,
    {
        self.inner.current_trap()
    }

    pub fn program_counter(&self) -> (r: usize)
        ensures
            r as nat == self.inner@.pc,
    {
        self.inner.program_counter()
    }

    /// The current frame; always defined thanks to the sentinel.
    pub fn frame(&self) -> (r: &ijvm::Frame)
        requires
            self.wf(),
        ensures
            r@ == self.inner@.frames.last(),
    {
        self.inner.frame()
    }
}

/// The classifier's upgrade of the constant tags for one text position that
/// reads a constant onto the stack: byte `0x13` with a big-endian index in
/// the two bytes after it.
pub open spec fn stack_upd(tags: Seq<ConstantKind>, text: Seq<u8>, i: int) -> Seq<ConstantKind> {
    if text[i] == 0x13 && i + 3 <= text.len() {
        let ci = be_u16(text, i + 1) as int;
        if ci < tags.len() {
            tags.update(ci, tags[ci].spec_as_stack())
        } else {
            tags
        }
    } else {
        tags
    }
}

/// The classifier's first pass over the first `n` text positions.
pub open spec fn stack_pass(tags: Seq<ConstantKind>, text: Seq<u8>, n: int) -> Seq<ConstantKind>
    decreases n,
{
    if n <= 0 {
        tags
    } else {
        stack_upd(stack_pass(tags, text, n - 1), text, n - 1)
    }
}

/// The classifier's upgrade for one text position that invokes a constant
/// as a method: byte `0xB6` with a big-endian index after it.
pub open spec fn method_upd(tags: Seq<ConstantKind>, text: Seq<u8>, i: int) -> Seq<ConstantKind> {
    if text[i] == 0xB6 && i + 3 <= text.len() {
        let ci = be_u16(text, i + 1) as int;
        if ci < tags.len() {
            tags.update(ci, tags[ci].spec_as_method())
        } else {
            tags
        }
    } else {
        tags
    }
}

/// The classifier's second pass over the first `n` text positions.
pub open spec fn method_pass(tags: Seq<ConstantKind>, text: Seq<u8>, n: int) -> Seq<ConstantKind>
    decreases n,
{
    if n <= 0 {
        tags
    } else {
        method_upd(method_pass(tags, text, n - 1), text, n - 1)
    }
}

/// What the classifier produces: every constant first untagged, then
/// upgraded by every `LDC_W` use and every `INVOKEVIRTUAL` use in the text.
pub open spec fn classify_spec(constants: Seq<i32>, text: Seq<u8>) -> Seq<ConstantKind> {
    let init = Seq::new(constants.len(), |i: int| ConstantKind::Unused(constants[i]));
    method_pass(stack_pass(init, text, text.len() as int), text, text.len() as int)
}

/// Tags each constant-pool entry by how the text uses it. References whose
/// constant index lies beyond the pool are ignored.
pub fn classify_constants(constants: &Vec<i32>, text: &Vec<u8>) -> (r: Vec<ConstantKind>)
    ensures
        r@ == classify_spec(constants@, text@),
{
    let mut tags: Vec<ConstantKind> = Vec::new();
    let mut i: usize = 0;
    while i < constants.len()
        invariant
            i <= constants@.len(),
            tags@ =~= Seq::new(i as nat, |j: int| ConstantKind::Unused(constants@[j])),
        decreases constants@.len() - i,
    {
        tags.push(ConstantKind::Unused(constants[i]));
        i = i + 1;
    }
    let ghost init = tags@;
    proof {
        assert(init =~= Seq::new(constants@.len(), |j: int| ConstantKind::Unused(constants@[j])));
    }
    let mut ind: usize = 0;
    while ind < text.len()
        invariant
            ind <= text@.len(),
            tags@ == stack_pass(init, text@, ind as int),
        decreases text@.len() - ind,
    {
        if text[ind] == 0x13 && text.len() - ind >= 3 {
            let ci = (text[ind + 1] as usize) * 256 + (text[ind + 2] as usize);
            if ci < tags.len() {
                let upgraded = tags[ci].as_stack();
                tags[ci] = upgraded;
            }
        }
        proof {
            assert(tags@ =~= stack_upd(stack_pass(init, text@, ind as int), text@, ind as int));
        }
        ind = ind + 1;
    }
    let ghost after_stack = tags@;
    let mut ind2: usize = 0;
    while ind2 < text.len()
        invariant
            ind2 <= text@.len(),
            after_stack == stack_pass(init, text@, text@.len() as int),
            tags@ == method_pass(after_stack, text@, ind2 as int),
        decreases text@.len() - ind2,
    {
        if text[ind2] == 0xB6 && text.len() - ind2 >= 3 {
            let ci = (text[ind2 + 1] as usize) * 256 + (text[ind2 + 2] as usize);
            if ci < tags.len() {
                let upgraded = tags[ci].as_method();
                tags[ci] = upgraded;
            }
        }
        proof {
            assert(tags@ =~= method_upd(
                method_pass(after_stack, text@, ind2 as int),
                text@,
                ind2 as int,
            ));
        }
        ind2 = ind2 + 1;
    }
    tags
}

/// The indices of the entries among the first `n` that the classifier left
/// untagged, in order.
pub open spec fn unused_indices(kinds: Seq<ConstantKind>, n: int) -> Seq<usize>
    decreases n,
{
    if n <= 0 {
        Seq::empty()
    } else if kinds[n - 1] is Unused {
        unused_indices(kinds, n - 1).push((n - 1) as usize)
    } else {
        unused_indices(kinds, n - 1)
    }
}

/// The indices of the constants that no `LDC_W` and no `INVOKEVIRTUAL`
/// references. A program that consults such an entry is malformed; the
/// host may warn, the load itself goes on.
pub fn unused_constants(kinds: &Vec<ConstantKind>) -> (r: Vec<usize>)
    ensures
        r@ == unused_indices(kinds@, kinds@.len() as int),
{
    let mut r: Vec<usize> = Vec::new();
    let mut i: usize = 0;
    while i < kinds.len()
        invariant
            i <= kinds@.len(),
            r@ == unused_indices(kinds@, i as int),
        decreases kinds@.len() - i,
    {
        if kinds[i].is_none() {
            r.push(i);
        }
        i = i + 1;
    }
    r
}

/// The big-endian 32-bit word at byte `i`, reinterpreted as signed: one
/// constant of the pool.
pub open spec fn be_i32(data: Seq<u8>, i: int) -> i32 {
    be_u32(data, i) as i32
}

/// The constant pool a block's bytes carry: one big-endian signed 32-bit
/// word per four bytes, a trailing fragment ignored.
pub open spec fn consts_of(bytes: Seq<u8>) -> Seq<i32> {
    Seq::new((bytes.len() / 4) as nat, |i: int| be_i32(bytes, 4 * i))
}

/// Decodes the constant block's payload into the constant pool.
pub fn load_constants(block: ijvm::IJVMBlock) -> (r: Vec<i32>)
    requires
        block.pool_size as int <= block.contents@.len(),
    ensures
        r@ == consts_of(block.contents@.take((block.pool_size / 4) as int * 4)),
        r@.len() == block.pool_size as int / 4,
        forall|i: int| 0 <= i < r@.len() ==> r@[i] == be_i32(block.contents@, 4 * i),
    {
    let count = (block.pool_size / 4) as usize;
    let mut constants: Vec<i32> = Vec::new();
    let mut i: usize = 0;
    while i < count
        invariant
            i <= count,
            4 * count as int <= block.contents.len(),
            constants@.len() == i as int,
            forall|j: int| 0 <= j < i as int ==> constants@[j] == be_i32(block.contents@, 4 * j),
        decreases count - i,
    {
        let num = (block.contents[4 * i] as u32) * 0x1000000 + (block.contents[4 * i + 1] as u32)
            * 0x10000 + (block.contents[4 * i + 2] as u32) * 0x100 + (block.contents[4 * i
            + 3] as u32);
        constants.push(#[verifier::truncate] (num as i32));
        i = i + 1;
    }
    proof {
        let taken = block.contents@.take((block.pool_size / 4) as int * 4);
        assert forall|j: int| 0 <= j < count as int implies constants@[j] == be_i32(taken, 4 * j)
        by {
            assert(taken[4 * j] == block.contents@[4 * j]);
            assert(taken[4 * j + 1] == block.contents@[4 * j + 1]);
            assert(taken[4 * j + 2] == block.contents@[4 * j + 2]);
            assert(taken[4 * j + 3] == block.contents@[4 * j + 3]);
        }
        assert(constants@ =~= consts_of(taken));
    }
    constants
}

/// Whether a whole length-prefixed block lies at byte `pos` of the image.
pub open spec fn block_ok(data: Seq<u8>, pos: int) -> bool {
    pos + 8 <= data.len() && pos + 8 + be_u32(data, pos + 4) <= data.len()
}

/// The payload of the block at byte `pos`.
pub open spec fn block_contents(data: Seq<u8>, pos: int) -> Seq<u8> {
    data.subrange(pos + 8, pos + 8 + be_u32(data, pos + 4))
}

/// The position of the first byte after the block at byte `pos`.
pub open spec fn block_end(data: Seq<u8>, pos: int) -> int {
    pos + 8 + be_u32(data, pos + 4)
}

/// The magic word that opens every program image.
pub const MAGIC: u32 = 0x1DEADFAD;

/// What loading an image yields: the resolved program and the constant
/// pool, or the first load error.
pub open spec fn load_spec(data: Seq<u8>) -> Result<(Seq<MemoryBlock>, Seq<i32>), LoadError> {
    if data.len() < 4 {
        Err(LoadError::TruncatedBlock)
    } else if be_u32(data, 0) != MAGIC {
        Err(LoadError::InvalidHeader)
    } else if !block_ok(data, 4) {
        Err(LoadError::TruncatedBlock)
    } else if !block_ok(data, block_end(data, 4)) {
        Err(LoadError::TruncatedBlock)
    } else {
        let cbytes = block_contents(data, 4);
        let text = block_contents(data, block_end(data, 4));
        let constants = consts_of(cbytes.take(cbytes.len() as int / 4 * 4));
        match parse_spec(text, classify_spec(constants, text)) {
            Ok(prog) => Ok((prog, constants)),
            Err(e) => Err(e),
        }
    }
}

/// Loads a program image: checks the magic word, reads the constant and
/// text blocks, classifies the constants, decodes and resolves the text,
/// and constructs a fresh runtime around the result, with `input` as the
/// modelled input stream.
pub fn init_ijvm_bytes(data: &Vec<u8>, input: Vec<u8>) -> (r: Result<Runtime, LoadError>)
    ensures
        (match load_spec(data@) {
            Ok(p) => r matches Ok(rt) && rt.wf() && rt.inner@ == fresh_state(p.0, p.1, input@),
            Err(e) => r matches Err(e2) && e2 == e,
        }),
{
    if data.len() < 4 {
        return Err(LoadError::TruncatedBlock);
    }
    let header = ijvm::read_be_u32(data, 0);
    if header != MAGIC {
        return Err(LoadError::InvalidHeader);
    }
    let (cblock, after_consts) = match ijvm::IJVMBlock::read_block(data, 4) {
        Ok(p) => p,
        Err(e) => {
            return Err(e);
        },
    };
    let (text, _after_text) = match ijvm::IJVMBlock::read_block(data, after_consts) {
        Ok(p) => p,
        Err(e) => {
            return Err(e);
        },
    };
    let ghost cbytes = cblock.contents@;
    let constants = load_constants(cblock);
    let constants_kinded = classify_constants(&constants, &text.contents);
    let ghost tseq = text.contents@;
    let instructions = match IJVMParser::parse_iter(text.contents, constants_kinded) {
        Ok(v) => v,
        Err(e) => {
            return Err(e);
        },
    };
    let inner_instructions = clone_blocks(&instructions);
    let inner = RuntimeInner {
        instructions: inner_instructions,
        constants,
        frames: FrameStack::new(),
        program_counter: 0,
        is_finished: false,
        stack: Stack::new(),
        trap: None,
        in_stream: input,
        in_pos: 0,
        out_stream: Vec::new(),
    };
    let runtime = Runtime { instructions, inner };
    proof {
        let p = load_spec(data@)->Ok_0;
        assert(runtime.inner@ =~= fresh_state(p.0, p.1, input@));
    }
    Ok(runtime)
}

/// Copies a decoded program, so that the dispatcher and the machine can
/// each own one.
fn clone_blocks(blocks: &Vec<MemoryBlock>) -> (r: Vec<MemoryBlock>)
    ensures
        r@ == blocks@,
{
    let mut r: Vec<MemoryBlock> = Vec::new();
    let mut i: usize = 0;
    while i < blocks.len()
        invariant
            i <= blocks@.len(),
            r@ =~= blocks@.take(i as int),
        decreases blocks@.len() - i,
    {
        r.push(blocks[i]);
        proof {
            assert(r@ =~= blocks@.take(i + 1));
        }
        i = i + 1;
    }
    proof {
        assert(r@ =~= blocks@);
    }
    r
}


} // verus!
