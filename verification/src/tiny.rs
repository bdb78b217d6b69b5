//! The small data carriers of the runtime: the bounded operand stack, the
//! growable local-variable array of a frame, and the frame stack.

use vstd::prelude::*;

use crate::ijvm::Frame;
use crate::ijvm::FrameView;
use crate::ijvm_core::InstructionRef;

verus! {

/// Capacity bound of the operand stack: pushing beyond it is a trap.
pub const STACK_SIZE: usize = 65536;

/// Bounded operand stack of 32-bit signed words.
///
/// A growable vector backs it; the capacity bound is enforced through the
/// contract of `push`, so `len` answers in constant time and the contents
/// always match the sequence model.
pub struct Stack {
    stack: Vec<i32>,
}

impl View for Stack {
    type V = Seq<i32>;

    closed spec fn view(&self) -> Seq<i32> {
        self.stack@
    }
}

impl Stack {
    pub fn new() -> (r: Stack)
        ensures
            r@ == Seq::<i32>::empty(),
    {
        Stack { stack: Vec::new() }
    }

    pub fn push(&mut self, value: i32)
        requires
            old(self)@.len() < STACK_SIZE,
        ensures
            final(self)@ == old(self)@.push(value),
    {
        self.stack.push(value);
    }

    pub fn pop(&mut self) -> (r: i32)
        requires
            old(self)@.len() >= 1,
        ensures
            r == old(self)@.last(),
            final(self)@ == old(self)@.drop_last(),
    {
        let r = self.stack.pop().unwrap();
        proof {
            assert(self@ =~= old(self)@.drop_last());
        }
        r
    }

    /// Truncates the stack to height `size`; a no-op when it is already at or
    /// below that height.
    pub fn pop_until_size(&mut self, size: usize)
        ensures
            final(self)@ == (if old(self)@.len() > size {
                old(self)@.take(size as int)
            } else {
                old(self)@
            }),
    {
        if self.stack.len() > size {
            self.stack.truncate(size);
            proof {
                assert(self@ =~= old(self)@.take(size as int));
            }
        }
    }

    /// Removes the top `n` elements and hands them out in bottom-to-top
    /// order, for argument passing at call time.
    pub fn get_ref_top_n(&mut self, n: usize) -> (r: Vec<i32>)
        requires
            n <= old(self)@.len(),
        ensures
            r@ == old(self)@.subrange(old(self)@.len() - n, old(self)@.len() as int),
            final(self)@ == old(self)@.take(old(self)@.len() - n),
    {
        let at = self.stack.len() - n;
        let r = self.stack.split_off(at);
        proof {
            assert(self@ =~= old(self)@.take(old(self)@.len() - n));
        }
        r
    }

    /// The top of the stack, or zero when the stack is empty.
    pub fn peek_top(&self) -> (r: i32)
        ensures
            r == (if self@.len() == 0 { 0i32 } else { self@.last() }),
    {
        if self.stack.len() == 0 {
            0
        } else {
            self.stack[self.stack.len() - 1]
        }
    }

    pub fn len(&self) -> (r: usize)
        ensures
            r == self@.len(),
    {
        self.stack.len()
    }

    pub fn clear(&mut self)
        ensures
            final(self)@ == Seq::<i32>::empty(),
    {
        self.stack.clear();
    }
}

/// The value of local `var` in the local array `vars`: zero when unassigned.
pub open spec fn local_at(vars: Seq<i32>, var: int) -> i32 {
    if 0 <= var < vars.len() {
        vars[var]
    } else {
        0i32
    }
}

/// The local array after storing `value` at index `var`: the array grows
/// transparently, unassigned slots filling with zero.
pub open spec fn local_store(vars: Seq<i32>, var: int, value: i32) -> Seq<i32> {
    Seq::new(
        (if var + 1 > vars.len() {
            var + 1
        } else {
            vars.len() as int
        }) as nat,
        |i: int|
            if i == var {
                value
            } else if 0 <= i < vars.len() {
                vars[i]
            } else {
                0i32
            },
    )
}

/// Local-variable array of a frame, indexed by a small non-negative index.
/// Reads of unassigned indices yield zero; writes grow the array.
pub struct TinyVarsVec {
    vars: Vec<i32>,
}

impl View for TinyVarsVec {
    type V = Seq<i32>;

    closed spec fn view(&self) -> Seq<i32> {
        self.vars@
    }
}

/// The local-variable representation frames use.
pub type TinyVars = TinyVarsVec;

impl TinyVarsVec {
    pub fn new(size: u32) -> (r: Self)
        ensures
            r@ == Seq::new(size as nat, |i: int| 0i32),
    {
        let mut vars: Vec<i32> = Vec::new();
        let mut i: u32 = 0;
        while i < size
            invariant
                i <= size,
                vars@ =~= Seq::new(i as nat, |j: int| 0i32),
            decreases size - i,
        {
            vars.push(0);
            i = i + 1;
        }
        proof {
            assert(vars@ =~= Seq::new(size as nat, |j: int| 0i32));
        }
        TinyVarsVec { vars }
    }

    pub fn load_var(&self, var: u16) -> (r: i32)
        ensures
            r == local_at(self@, var as int),
    {
        if (var as usize) < self.vars.len() {
            self.vars[var as usize]
        } else {
            0
        }
    }

    pub fn store_var(&mut self, var: u16, value: i32)
        ensures
            final(self)@ == local_store(old(self)@, var as int, value),
    {
        while self.vars.len() < var as usize + 1
            invariant
                old(self)@.len() <= self@.len(),
                self@.len() <= (if old(self)@.len() > var as int + 1 {
                    old(self)@.len() as int
                } else {
                    var as int + 1
                }),
                self@ =~= Seq::new(
                    self@.len(),
                    |i: int|
                        if 0 <= i < old(self)@.len() {
                            old(self)@[i]
                        } else {
                            0i32
                        },
                ),
            decreases var as int + 1 - self@.len(),
        {
            self.vars.push(0);
        }
        self.vars[var as usize] = value;
        proof {
            assert(self@ =~= local_store(old(self)@, var as int, value));
        }
    }

    pub fn reset(&mut self)
        ensures
            final(self)@ == Seq::<i32>::empty(),
    {
        self.vars.clear();
    }
}

/// The value of `var` in an association list of locals: the first matching
/// entry, or zero when none matches.
pub open spec fn dict_at(entries: Seq<(u16, i32)>, var: u16) -> i32
    decreases entries.len(),
{
    if entries.len() == 0 {
        0i32
    } else if entries[0].0 == var {
        entries[0].1
    } else {
        dict_at(entries.drop_first(), var)
    }
}

/// The association list after a store: the first matching entry updated in
/// place, or a new entry appended when none matches.
pub open spec fn dict_store(entries: Seq<(u16, i32)>, var: u16, value: i32) -> Seq<(u16, i32)>
    decreases entries.len(),
{
    if entries.len() == 0 {
        seq![(var, value)]
    } else if entries[0].0 == var {
        entries.update(0, (var, value))
    } else {
        seq![entries[0]] + dict_store(entries.drop_first(), var, value)
    }
}

/// A matching entry with no match before it is the one a lookup finds.
proof fn lemma_dict_at_found(entries: Seq<(u16, i32)>, var: u16, i: int)
    requires
        0 <= i < entries.len(),
        entries[i].0 == var,
        forall|j: int| 0 <= j < i ==> entries[j].0 != var,
    ensures
        dict_at(entries, var) == entries[i].1,
    decreases i,
{
    if i > 0 {
        assert(forall|j: int| 0 <= j < i - 1 ==> entries.drop_first()[j] == entries[j + 1]);
        lemma_dict_at_found(entries.drop_first(), var, i - 1);
    }
}

/// With no matching entry anywhere, a lookup yields zero.
proof fn lemma_dict_at_none(entries: Seq<(u16, i32)>, var: u16)
    requires
        forall|j: int| 0 <= j < entries.len() ==> entries[j].0 != var,
    ensures
        dict_at(entries, var) == 0i32,
    decreases entries.len(),
{
    if entries.len() > 0 {
        assert(forall|j: int|
            0 <= j < entries.len() - 1 ==> entries.drop_first()[j] == entries[j + 1]);
        lemma_dict_at_none(entries.drop_first(), var);
    }
}

/// A store that finds its first match at `i` updates that entry in place.
proof fn lemma_dict_store_found(entries: Seq<(u16, i32)>, var: u16, value: i32, i: int)
    requires
        0 <= i < entries.len(),
        entries[i].0 == var,
        forall|j: int| 0 <= j < i ==> entries[j].0 != var,
    ensures
        dict_store(entries, var, value) =~= entries.update(i, (var, value)),
    decreases i,
{
    if i > 0 {
        assert(forall|j: int| 0 <= j < i - 1 ==> entries.drop_first()[j] == entries[j + 1]);
        lemma_dict_store_found(entries.drop_first(), var, value, i - 1);
    }
}

/// A store that finds no match appends a new entry.
proof fn lemma_dict_store_none(entries: Seq<(u16, i32)>, var: u16, value: i32)
    requires
        forall|j: int| 0 <= j < entries.len() ==> entries[j].0 != var,
    ensures
        dict_store(entries, var, value) =~= entries.push((var, value)),
    decreases entries.len(),
{
    if entries.len() > 0 {
        assert(forall|j: int|
            0 <= j < entries.len() - 1 ==> entries.drop_first()[j] == entries[j + 1]);
        lemma_dict_store_none(entries.drop_first(), var, value);
    }
}

/// Local-variable storage as an association list: an alternative carrier
/// with the same reads-return-zero discipline as `TinyVarsVec`, compact for
/// sparse local indices.
pub struct TinyVarsDict {
    vars: Vec<(u16, i32)>,
}

impl View for TinyVarsDict {
    type V = Seq<(u16, i32)>;

    closed spec fn view(&self) -> Seq<(u16, i32)> {
        self.vars@
    }
}

impl TinyVarsDict {
    pub fn new(size: u32) -> (r: TinyVarsDict)
        ensures
            r@ == Seq::<(u16, i32)>::empty(),
    {
        TinyVarsDict { vars: Vec::with_capacity(size as usize) }
    }

    pub fn load_var(&self, var: u16) -> (r: i32)
        ensures
            r == dict_at(self@, var),
    {
        let mut i: usize = 0;
        while i < self.vars.len()
            invariant
                i <= self@.len(),
                forall|j: int| 0 <= j < i ==> (#[trigger] self@[j]).0 != var,
            decreases self@.len() - i,
        {
            if self.vars[i].0 == var {
                proof {
                    lemma_dict_at_found(self@, var, i as int);
                }
                return self.vars[i].1;
            }
            i = i + 1;
        }
        proof {
            lemma_dict_at_none(self@, var);
        }
        0
    }

    pub fn store_var(&mut self, var: u16, value: i32)
        ensures
            final(self)@ == dict_store(old(self)@, var, value),
    {
        let mut i: usize = 0;
        while i < self.vars.len()
            invariant
                i <= self@.len(),
                self@ == old(self)@,
                forall|j: int| 0 <= j < i ==> (#[trigger] self@[j]).0 != var,
            decreases self@.len() - i,
        {
            if self.vars[i].0 == var {
                self.vars[i] = (var, value);
                proof {
                    lemma_dict_store_found(old(self)@, var, value, i as int);
                }
                return;
            }
            i = i + 1;
        }
        self.vars.push((var, value));
        proof {
            lemma_dict_store_none(old(self)@, var, value);
        }
    }
}

/// Length of a fresh frame's local array: `max(var_count, 1, n_args)`.
/// Local 0 is written unconditionally at frame birth, hence the floor of one.
pub open spec fn locals_len(var_count: int, n_args: int) -> int {
    let base = if var_count > 1 {
        var_count
    } else {
        1
    };
    if n_args > base {
        n_args
    } else {
        base
    }
}

/// The local array a fresh frame carries: the arguments in order, the rest
/// zero-filled up to `locals_len`.
pub open spec fn frame_locals(var_count: int, args: Seq<i32>) -> Seq<i32> {
    Seq::new(
        locals_len(var_count, args.len() as int) as nat,
        |i: int|
            if 0 <= i < args.len() {
                args[i]
            } else {
                0i32
            },
    )
}

/// The view of the sentinel bottom frame that exists from construction on.
pub open spec fn sentinel_frame() -> FrameView {
    FrameView { starting_stack_length: 0, vars: Seq::empty(), restore_pc: 0 }
}

/// Stack of invocation frames. A sentinel bottom frame for the program's
/// entry code is pushed at construction and never popped, so the
/// current-frame operation is always defined.
pub struct FrameStack {
    frames: Vec<Frame>,
}

impl View for FrameStack {
    type V = Seq<FrameView>;

    closed spec fn view(&self) -> Seq<FrameView> {
        self.frames@.map(|i: int, f: Frame| f@)
    }
}

impl FrameStack {
    pub fn new() -> (r: FrameStack)
        ensures
            r@ =~= seq![sentinel_frame()],
    {
        let mut frames: Vec<Frame> = Vec::new();
        frames.push(Frame::new(0, 0, 0));
        proof {
            assert(FrameStack { frames }@ =~~= seq![sentinel_frame()]);
        }
        FrameStack { frames }
    }

    /// Allocates and pushes a frame: locals sized `max(var_count, 1,
    /// args.len())`, local 0 zeroed first, then `args[i]` stored at local `i`.
    pub fn push_frame(
        &mut self,
        starting_stack_length: u32,
        var_count: u32,
        restore_pc: InstructionRef,
        args: &Vec<i32>,
    )
        requires
            args@.len() <= 65535,
        ensures
            final(self)@ == old(self)@.push(
                FrameView {
                    starting_stack_length: starting_stack_length as nat,
                    vars: frame_locals(var_count as int, args@),
                    restore_pc: restore_pc as nat,
                },
            ),
    {
        let mut frame = Frame::new(starting_stack_length, var_count, restore_pc);
        frame.store_var(0, 0);
        let mut i: usize = 0;
        while i < args.len()
            invariant
                i <= args@.len(),
                args@.len() <= 65535,
                frame@.starting_stack_length == starting_stack_length as nat,
                frame@.restore_pc == restore_pc as nat,
                frame@.vars =~= Seq::new(
                    locals_len(var_count as int, i as int) as nat,
                    |j: int|
                        if 0 <= j < i as int {
                            args@[j]
                        } else {
                            0i32
                        },
                ),
            decreases args@.len() - i,
        {
            frame.store_var(i as u16, args[i]);
            i = i + 1;
        }
        self.frames.push(frame);
        proof {
            assert(frame@.vars =~= frame_locals(var_count as int, args@));
            assert(self@ =~= old(self)@.push(
                FrameView {
                    starting_stack_length: starting_stack_length as nat,
                    vars: frame_locals(var_count as int, args@),
                    restore_pc: restore_pc as nat,
                },
            ));
        }
    }

    /// Removes the current frame. The sentinel bottom frame stays.
    pub fn pop_frame(&mut self) -> (r: Frame)
        requires
            old(self)@.len() >= 2,
        ensures
            r@ == old(self)@.last(),
            final(self)@ == old(self)@.drop_last(),
    {
        let r = self.frames.pop().unwrap();
        proof {
            assert(self@ =~= old(self)@.drop_last());
        }
        r
    }

    pub fn current_frame(&self) -> (r: &Frame)
        requires
            self@.len() >= 1,
        ensures
            r@ == self@.last(),
    {
        &self.frames[self.frames.len() - 1]
    }

    /// Stores `value` into local `var` of the current frame.
    pub fn store_var_top(&mut self, var: u16, value: i32)
        requires
            old(self)@.len() >= 1,
        ensures
            final(self)@ == old(self)@.update(
                old(self)@.len() - 1,
                (FrameView {
                    vars: local_store(old(self)@.last().vars, var as int, value),
                    ..old(self)@.last()
                }),
            ),
    {
        let mut f = self.frames.pop().unwrap();
        f.store_var(var, value);
        self.frames.push(f);
        proof {
            assert(self@ =~= old(self)@.update(
                old(self)@.len() - 1,
                (FrameView {
                    vars: local_store(old(self)@.last().vars, var as int, value),
                    ..old(self)@.last()
                }),
            ));
        }
    }

    /// Drops every frame above the sentinel and restores the sentinel's
    /// locals to all-zero, so a reset runtime replays from a clean slate.
    pub fn clear(&mut self)
        ensures
            final(self)@ =~= seq![sentinel_frame()],
    {
        self.frames.clear();
        self.frames.push(Frame::new(0, 0, 0));
        proof {
            assert(self@ =~~= seq![sentinel_frame()]);
        }
    }

    pub fn len(&self) -> (r: usize)
        ensures
            r == self@.len(),
    {
        self.frames.len()
    }
}

} // verus!
