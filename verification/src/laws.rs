//! The laws the machine obeys, stated over the transition function and the
//! resolver and proved once for all programs and states.

use vstd::prelude::*;

use crate::ijvm_core::exec_spec;
use crate::ijvm_core::fresh_state;
use crate::ijvm_core::iterate;
use crate::ijvm_core::rt_wf;
use crate::ijvm_core::step_spec;
use crate::ijvm_core::ConstantKind;
use crate::ijvm_core::InstructionRef;
use crate::ijvm_core::LoadError;
use crate::ijvm_core::RtView;
use crate::instructions::be_u16;
use crate::instructions::decode_one;
use crate::instructions::decode_from;
use crate::instructions::parse_spec;
use crate::instructions::resolve_from;
use crate::instructions::is_header_at;
use crate::instructions::lemma_first_occ_found;
use crate::instructions::resolve_one;
use crate::instructions::MemoryBlock;
use crate::instructions::ResolveLater;
use crate::instructions::WideMemoryBlock;
use crate::tiny::STACK_SIZE;

verus! {

/// The opcodes whose stack effect is a fixed delta: everything but the call
/// and return protocol and the blocks that may not be executed.
pub open spec fn is_balanced_op(ins: MemoryBlock) -> bool {
    !(ins matches MemoryBlock::RESOLVED_INVOKEVIRTUAL(_)) && !(ins matches MemoryBlock::IRETURN)
        && !(ins matches MemoryBlock::METHODHEADER { .. }) && !(ins matches MemoryBlock::Delayed(
        ..,
    )) && !(ins matches MemoryBlock::ERR)
}

/// The fixed stack delta of a balanced opcode.
pub open spec fn stack_delta(ins: MemoryBlock) -> int {
    match ins {
        MemoryBlock::BIPUSH(_) => 1,
        MemoryBlock::DUP => 1,
        MemoryBlock::ILOAD(_) => 1,
        MemoryBlock::RESOLVED_LDC_W(_) => 1,
        MemoryBlock::IN => 1,
        MemoryBlock::IADD => -1,
        MemoryBlock::ISUB => -1,
        MemoryBlock::IAND => -1,
        MemoryBlock::IOR => -1,
        MemoryBlock::POP => -1,
        MemoryBlock::OUT => -1,
        MemoryBlock::ISTORE(_) => -1,
        MemoryBlock::RESOLVED_IFEQ(_) => -1,
        MemoryBlock::RESOLVED_IFLT(_) => -1,
        MemoryBlock::RESOLVED_IF_ICMPEQ(_) => -2,
        MemoryBlock::NOP => 0,
        MemoryBlock::SWAP => 0,
        MemoryBlock::IINC(_, _) => 0,
        MemoryBlock::RESOLVED_GOTO(_) => 0,
        MemoryBlock::HALT => 0,
        MemoryBlock::WIDE(w) => match w {
            WideMemoryBlock::ILOAD(_) => 1,
            WideMemoryBlock::ISTORE(_) => -1,
            WideMemoryBlock::IIINC(_, _) => 0,
        },
        _ => 0,
    }
}

/// Stack balance per instruction: a step that executes a balanced opcode
/// without trapping changes the operand-stack height by that opcode's fixed
/// delta.
pub proof fn lemma_stack_balance(s: RtView)
    requires
        !s.finished,
        s.trap is None,
        s.pc < s.program.len(),
        is_balanced_op(s.program[s.pc as int]),
        step_spec(s).trap is None,
    ensures
        step_spec(s).stack.len() == s.stack.len() + stack_delta(s.program[s.pc as int]),
{
}

/// Frame balance: a non-trapping `INVOKEVIRTUAL` of a method taking
/// `n_args` arguments, matched by the `IRETURN` that pops the frame it
/// created, leaves the operand stack exactly one higher than it stood
/// before the call, minus the arguments consumed.
///
/// The hypothesis `t.stack.len() > entry height` excludes a callee that
/// popped through its own entry height (for example a method body of
/// `POP; BIPUSH 0; IRETURN` invoked with no arguments on a non-empty
/// caller stack): such a callee destroys caller words and returns to a
/// shorter stack.
pub proof fn lemma_frame_balance(
    s: RtView,
    t: RtView,
    ind: InstructionRef,
    n_args: u16,
    n_vars: u16,
)
    requires
        !s.finished,
        s.trap is None,
        s.pc < s.program.len(),
        s.program[s.pc as int] == MemoryBlock::RESOLVED_INVOKEVIRTUAL(ind),
        ind < s.program.len(),
        s.program[ind as int] == (MemoryBlock::METHODHEADER { n_args, n_vars }),
        n_args <= s.stack.len(),
        !t.finished,
        t.trap is None,
        t.pc < t.program.len(),
        t.program[t.pc as int] == MemoryBlock::IRETURN,
        t.frames.len() >= 2,
        t.frames.last() == step_spec(s).frames.last(),
        t.stack.len() > step_spec(s).frames.last().starting_stack_length,
    ensures
        step_spec(t).stack.len() == s.stack.len() - n_args + 1,
{
    let f = step_spec(s).frames.last();
    assert(f.starting_stack_length == s.stack.len() - n_args);
    let popped = t.stack.drop_last();
    if popped.len() > f.starting_stack_length {
        assert(step_spec(t).stack.len() == f.starting_stack_length + 1);
    } else {
        assert(popped.len() == f.starting_stack_length);
    }
}

/// The stored target of a resolved branch, whatever its condition.
pub open spec fn resolved_branch_target(b: MemoryBlock) -> Option<InstructionRef> {
    match b {
        MemoryBlock::RESOLVED_GOTO(t) => Some(t),
        MemoryBlock::RESOLVED_IFEQ(t) => Some(t),
        MemoryBlock::RESOLVED_IFLT(t) => Some(t),
        MemoryBlock::RESOLVED_IF_ICMPEQ(t) => Some(t),
        _ => None,
    }
}

/// The raw signed byte offset of a branch placeholder, whatever its
/// condition.
pub open spec fn raw_branch_offset(b: MemoryBlock) -> Option<i16> {
    match b {
        MemoryBlock::Delayed(ResolveLater::GOTO(d), _) => Some(d),
        MemoryBlock::Delayed(ResolveLater::IFEQ(d), _) => Some(d),
        MemoryBlock::Delayed(ResolveLater::IFLT(d), _) => Some(d),
        MemoryBlock::Delayed(ResolveLater::IF_ICMPEQ(d), _) => Some(d),
        _ => None,
    }
}

/// Branch arithmetic: for every branch placeholder with raw offset `d`
/// standing at instruction index `i`, with `k` the byte offset of its
/// opcode (the first byte the mapping sends to `i`), the resolver stores
/// target `mappings[k + d] - 1`. The same holds for `GOTO` and for every
/// conditional, since the resolver routes all four through the same
/// target computation.
pub proof fn lemma_branch_arithmetic(
    b: MemoryBlock,
    i: usize,
    d: i16,
    mappings: Seq<usize>,
    consts: Seq<ConstantKind>,
    k: int,
)
    requires
        raw_branch_offset(b) == Some(d),
        resolve_one(b, i as int, mappings, consts) is Ok,
        0 <= k < mappings.len(),
        mappings[k] == i,
        forall|j: int| 0 <= j < k ==> mappings[j] != i,
    ensures
        0 <= k + d,
        k + d < mappings.len(),
        mappings[k + d] >= 1,
        resolved_branch_target(resolve_one(b, i as int, mappings, consts)->Ok_0) == Some(
            ((mappings[k + d] - 1) as InstructionRef),
        ),
{
    lemma_first_occ_found(mappings, i, k);
}

/// Constant classification at `LDC_W`: a successfully decoded `LDC_W`
/// consulted an entry usable as a stack value, never one tagged as a
/// method reference only.
pub proof fn lemma_ldcw_kind(text: Seq<u8>, consts: Seq<ConstantKind>, pos: int)
    requires
        0 <= pos < text.len(),
        !is_header_at(consts, pos),
        text[pos] == 0x13,
        decode_one(text, consts, pos) is Ok,
    ensures
        be_u16(text, pos + 1) < consts.len(),
        consts[be_u16(text, pos + 1) as int].is_stack_usable(),
        !(consts[be_u16(text, pos + 1) as int] is MethodRef),
{
}

/// Constant classification at `INVOKEVIRTUAL`: a successfully resolved call
/// consulted an entry usable as a method reference, never one tagged as a
/// stack value only.
pub proof fn lemma_invoke_kind(
    b: MemoryBlock,
    i: int,
    mappings: Seq<usize>,
    consts: Seq<ConstantKind>,
    ci: u16,
    reference: Option<InstructionRef>,
)
    requires
        b == MemoryBlock::Delayed(ResolveLater::INVOKEVIRTUAL(ci), reference),
        resolve_one(b, i, mappings, consts) is Ok,
    ensures
        ci < consts.len(),
        consts[ci as int].is_method_usable(),
        !(consts[ci as int] is StackValue),
{
}

/// No placeholder survives the second pass: every instruction the resolver
/// accumulates past index `i` is a resolved form.
proof fn lemma_resolve_from_no_placeholders(
    blocks: Seq<MemoryBlock>,
    mappings: Seq<usize>,
    consts: Seq<ConstantKind>,
    i: int,
    acc: Seq<MemoryBlock>,
)
    requires
        resolve_from(blocks, mappings, consts, i, acc) is Ok,
        forall|j: int|
            0 <= j < acc.len() ==> !((#[trigger] acc[j]) matches MemoryBlock::Delayed(..)),
    ensures
        forall|j: int|
            0 <= j < resolve_from(blocks, mappings, consts, i, acc)->Ok_0.len() ==> !((
            #[trigger] resolve_from(blocks, mappings, consts, i, acc)->Ok_0[j])
                matches MemoryBlock::Delayed(..)),
    decreases blocks.len() - i,
{
    if i < blocks.len() {
        let b = resolve_one(blocks[i], i, mappings, consts)->Ok_0;
        assert(forall|j: int|
            0 <= j < acc.push(b).len() ==> !((#[trigger] acc.push(b)[j])
                matches MemoryBlock::Delayed(..)));
        lemma_resolve_from_no_placeholders(blocks, mappings, consts, i + 1, acc.push(b));
    }
}

/// No placeholder survives loading: every instruction of a successfully
/// parsed and resolved program is executable as it stands.
pub proof fn lemma_no_placeholders(text: Seq<u8>, consts: Seq<ConstantKind>)
    requires
        parse_spec(text, consts) is Ok,
    ensures
        forall|j: int|
            0 <= j < parse_spec(text, consts)->Ok_0.len() ==> !((#[trigger] parse_spec(
                text,
                consts,
            )->Ok_0[j]) matches MemoryBlock::Delayed(..)),
{
    let decoded = decode_from(text, consts, 0, Seq::empty(), Seq::empty())->Ok_0;
    lemma_resolve_from_no_placeholders(decoded.0, decoded.1, consts, 0, Seq::empty());
}

/// A step never touches the decoded program, the constant pool, or the
/// input bytes.
pub proof fn lemma_step_preserves_immutables(s: RtView)
    ensures
        step_spec(s).program == s.program,
        step_spec(s).constants == s.constants,
        step_spec(s).input == s.input,
{
}

/// Nor does any number of steps.
pub proof fn lemma_iterate_preserves_immutables(s: RtView, n: nat)
    ensures
        iterate(s, n).program == s.program,
        iterate(s, n).constants == s.constants,
        iterate(s, n).input == s.input,
    decreases n,
{
    if n > 0 {
        lemma_step_preserves_immutables(s);
        lemma_iterate_preserves_immutables(step_spec(s), (n - 1) as nat);
    }
}

/// Reset idempotence: however many steps a fresh runtime has taken,
/// resetting it restores exactly the fresh state, so a rerun retraces the
/// same states — the same output bytes and the same final stack.
pub proof fn lemma_reset_replay(init: RtView, m: nat, n: nat)
    requires
        init == fresh_state(init.program, init.constants, init.input),
    ensures
        ({
            let after_run = iterate(init, m);
            iterate(fresh_state(after_run.program, after_run.constants, after_run.input), n)
                == iterate(init, n)
        }),
{
    lemma_iterate_preserves_immutables(init, m);
}

/// Round trip of integer addition: `BIPUSH a; BIPUSH b; IADD` leaves
/// exactly the two's-complement sum of `a` and `b` on the stack, for all
/// byte pairs, whenever the stack has room for the two pushes.
pub proof fn lemma_bipush_bipush_iadd(s: RtView, a: i8, b: i8)
    requires
        rt_wf(s),
        !s.finished,
        s.trap is None,
        s.pc + 2 < s.program.len(),
        s.program[s.pc as int] == MemoryBlock::BIPUSH(a),
        s.program[s.pc as int + 1] == MemoryBlock::BIPUSH(b),
        s.program[s.pc as int + 2] == MemoryBlock::IADD,
        s.stack.len() + 2 <= STACK_SIZE,
    ensures
        iterate(s, 3).trap is None,
        iterate(s, 3).stack == s.stack.push((b as i32).wrapping_add(a as i32)),
{
    let s1 = step_spec(s);
    let s2 = step_spec(s1);
    let s3 = step_spec(s2);
    assert(iterate(s, 3) == iterate(s1, 2));
    assert(iterate(s1, 2) == iterate(s2, 1));
    assert(iterate(s2, 1) == iterate(s3, 0));
    assert(s1.stack == s.stack.push(a as i32));
    assert(s2.stack == s1.stack.push(b as i32));
    assert(s3.stack =~= s.stack.push((b as i32).wrapping_add(a as i32))) by {
        assert(s2.stack.take(s2.stack.len() - 2) =~= s.stack);
    }
}

} // verus!

