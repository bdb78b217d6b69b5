//! Binary blocks of the program image and the per-invocation frame.

use vstd::prelude::*;

use crate::ijvm_core::InstructionRef;
use crate::ijvm_core::LoadError;
use crate::tiny::local_at;
use crate::tiny::local_store;
use crate::tiny::TinyVars;

verus! {

/// The big-endian 32-bit word starting at byte `i` of `data`.
pub open spec fn be_u32(data: Seq<u8>, i: int) -> u32 {
    ((data[i] as int) * 0x1000000 + (data[i + 1] as int) * 0x10000 + (data[i + 2] as int) * 0x100
        + (data[i + 3] as int)) as u32
}

/// One length-prefixed block of the program image: a 4-byte big-endian
/// origin, a 4-byte big-endian size, then `size` payload bytes.
pub struct IJVMBlock {
    pub origin: u32,
    pub pool_size: u32,
    pub contents: Vec<u8>,
}

impl IJVMBlock {
    /// Reads one block starting at byte `pos` of `data` and returns it with
    /// the position of the first byte after it. Fails with `TruncatedBlock`
    /// when fewer than eight header bytes or fewer than `size` payload bytes
    /// remain.
    pub fn read_block(data: &Vec<u8>, pos: usize) -> (r: Result<(IJVMBlock, usize), LoadError>)
        requires
            pos <= data.len(),
        ensures
            (match r {
                Ok((block, next)) => {
                    &&& pos + 8 + be_u32(data@, pos + 4) <= data@.len()
                    &&& block.origin == be_u32(data@, pos as int)
                    &&& block.pool_size == be_u32(data@, pos + 4)
                    &&& block.contents@ == data@.subrange(
                        pos + 8,
                        pos + 8 + be_u32(data@, pos + 4),
                    )
                    &&& next == pos + 8 + be_u32(data@, pos + 4)
                },
                Err(e) => {
                    &&& e == LoadError::TruncatedBlock
                    &&& pos + 8 + (if pos + 8 <= data@.len() {
                        be_u32(data@, pos + 4) as int
                    } else {
                        0
                    }) > data@.len()
                },
            }),
    {
        if data.len() - pos < 8 {
            return Err(LoadError::TruncatedBlock);
        }
        let origin = read_be_u32(data, pos);
        let pool_size = read_be_u32(data, pos + 4);
        if (data.len() - pos - 8) < pool_size as usize {
            return Err(LoadError::TruncatedBlock);
        }
        let end = pos + 8 + pool_size as usize;
        let mut contents: Vec<u8> = Vec::new();
        let mut j: usize = pos + 8;
        while j < end
            invariant
                pos + 8 <= j <= end,
                end == pos + 8 + pool_size as int,
                end <= data@.len(),
                contents@ =~= data@.subrange(pos + 8, j as int),
            decreases end - j,
        {
            contents.push(data[j]);
            proof {
                assert(contents@ =~= data@.subrange(pos + 8, j + 1));
            }
            j = j + 1;
        }
        Ok((IJVMBlock { origin, pool_size, contents }, end))
    }
}

/// Reads the big-endian 32-bit word at byte `pos`.
pub fn read_be_u32(data: &Vec<u8>, pos: usize) -> (r: u32)
    requires
        pos + 4 <= data.len(),
    ensures
        r == be_u32(data@, pos as int),
{
    (data[pos] as u32) * 0x1000000 + (data[pos + 1] as u32) * 0x10000 + (data[pos + 2] as u32)
        * 0x100 + (data[pos + 3] as u32)
}

/// The observable content of a frame: the operand-stack height at entry, the
/// local-variable array, and the instruction index to return to.
#[verifier::ext_equal]
pub ghost struct FrameView {
    pub starting_stack_length: nat,
    pub vars: Seq<i32>,
    pub restore_pc: nat,
}

/// One invocation record: owns its locals, remembers the operand-stack
/// height at entry and the instruction that invoked it.
pub struct Frame {
    starting_stack_length: u32,
    vars: TinyVars,
    restore_pc: InstructionRef,
}

impl View for Frame {
    type V = FrameView;

    closed spec fn view(&self) -> FrameView {
        FrameView {
            starting_stack_length: self.starting_stack_length as nat,
            vars: self.vars@,
            restore_pc: self.restore_pc as nat,
        }
    }
}

impl Frame {
    pub fn new(starting_stack_length: u32, var_count: u32, restore_pc: InstructionRef) -> (r: Frame)
        ensures
            r@ == (FrameView {
                starting_stack_length: starting_stack_length as nat,
                vars: Seq::new(var_count as nat, |i: int| 0i32),
                restore_pc: restore_pc as nat,
            }),
    {
        Frame { starting_stack_length, vars: TinyVars::new(var_count), restore_pc }
    }

    /// Local `var`, or zero when it was never assigned.
    pub fn load_var(&self, var: u16) -> (r: i32)
        ensures
            r == local_at(self@.vars, var as int),
    {
        self.vars.load_var(var)
    }

    pub fn store_var(&mut self, var: u16, value: i32)
        ensures
            final(self)@ == (FrameView {
                vars: local_store(old(self)@.vars, var as int, value),
                ..old(self)@
            }),
    {
        self.vars.store_var(var, value);
    }

    pub fn restore_pc(&self) -> (r: InstructionRef)
        ensures
            r as nat == self@.restore_pc,
    {
        self.restore_pc
    }

    pub fn starting_stack_length(&self) -> (r: u32)
        ensures
            r as nat == self@.starting_stack_length,
    {
        self.starting_stack_length
    }

    /// Re-initialises the frame in place: locals cleared, entry height and
    /// return index replaced. The local array grows again on demand, so the
    /// requested capacity is not retained.
    pub fn reset(&mut self, new_stack_length: u32, new_var_count: u32, new_restore_pc: InstructionRef)
        ensures
            final(self)@ == (FrameView {
                starting_stack_length: new_stack_length as nat,
                vars: Seq::<i32>::empty(),
                restore_pc: new_restore_pc as nat,
            }),
    {
        let _ = new_var_count;
        self.vars.reset();
        self.starting_stack_length = new_stack_length;
        self.restore_pc = new_restore_pc;
    }
}

} // verus!
