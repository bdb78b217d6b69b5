//! The data carriers on their own: the operand stack, the local-variable
//! arrays, the frame stack, and the constant classification table.

use copp_rs::ijvm::Frame;
use copp_rs::ijvm::IJVMBlock;
use copp_rs::ijvm_core::classify_constants;
use copp_rs::ijvm_core::unused_constants;
use copp_rs::ijvm_core::ConstantKind;
use copp_rs::ijvm_core::LoadError;
use copp_rs::tiny::FrameStack;
use copp_rs::tiny::Stack;
use copp_rs::tiny::TinyVarsDict;
use copp_rs::tiny::TinyVarsVec;

#[test]
fn stack_push_pop_peek() {
    let mut s = Stack::new();
    assert_eq!(s.len(), 0);
    assert_eq!(s.peek_top(), 0);
    s.push(3);
    s.push(-7);
    assert_eq!(s.len(), 2);
    assert_eq!(s.peek_top(), -7);
    assert_eq!(s.pop(), -7);
    assert_eq!(s.pop(), 3);
    assert_eq!(s.len(), 0);
    assert_eq!(s.peek_top(), 0);
}

#[test]
fn stack_pop_until_size() {
    let mut s = Stack::new();
    for v in [1, 2, 3, 4, 5] {
        s.push(v);
    }
    s.pop_until_size(2);
    assert_eq!(s.len(), 2);
    assert_eq!(s.peek_top(), 2);
    s.pop_until_size(4);
    assert_eq!(s.len(), 2);
    s.clear();
    assert_eq!(s.len(), 0);
}

#[test]
fn stack_top_n() {
    let mut s = Stack::new();
    for v in [10, 20, 30, 40] {
        s.push(v);
    }
    let top = s.get_ref_top_n(3);
    assert_eq!(top, vec![20, 30, 40]);
    assert_eq!(s.len(), 1);
    assert_eq!(s.peek_top(), 10);
}

#[test]
fn vars_unassigned_read_zero() {
    let mut vars = TinyVarsVec::new(2);
    assert_eq!(vars.load_var(0), 0);
    assert_eq!(vars.load_var(100), 0);
    vars.store_var(5, 42);
    assert_eq!(vars.load_var(5), 42);
    assert_eq!(vars.load_var(3), 0);
    vars.reset();
    assert_eq!(vars.load_var(5), 0);
}

#[test]
fn dict_vars_first_match_wins() {
    let mut vars = TinyVarsDict::new(4);
    assert_eq!(vars.load_var(3), 0);
    vars.store_var(3, 30);
    vars.store_var(700, -1);
    assert_eq!(vars.load_var(3), 30);
    assert_eq!(vars.load_var(700), -1);
    assert_eq!(vars.load_var(0), 0);
    vars.store_var(3, 31);
    assert_eq!(vars.load_var(3), 31);
    assert_eq!(vars.load_var(700), -1);
}

#[test]
fn frame_locals_and_reset() {
    let mut frame = Frame::new(7, 2, 11);
    assert_eq!(frame.starting_stack_length(), 7);
    assert_eq!(frame.restore_pc(), 11);
    frame.store_var(0, -1);
    frame.store_var(9, 5);
    assert_eq!(frame.load_var(0), -1);
    assert_eq!(frame.load_var(9), 5);
    frame.reset(3, 0, 4);
    assert_eq!(frame.starting_stack_length(), 3);
    assert_eq!(frame.restore_pc(), 4);
    assert_eq!(frame.load_var(9), 0);
}

#[test]
fn frame_stack_push_pop() {
    let mut frames = FrameStack::new();
    assert_eq!(frames.len(), 1);
    frames.push_frame(4, 2, 9, &vec![6, 7]);
    assert_eq!(frames.len(), 2);
    assert_eq!(frames.current_frame().load_var(0), 6);
    assert_eq!(frames.current_frame().load_var(1), 7);
    frames.store_var_top(1, 8);
    assert_eq!(frames.current_frame().load_var(1), 8);
    let popped = frames.pop_frame();
    assert_eq!(popped.starting_stack_length(), 4);
    assert_eq!(popped.restore_pc(), 9);
    assert_eq!(frames.len(), 1);
    frames.clear();
    assert_eq!(frames.len(), 1);
}

#[test]
fn constant_kind_transitions() {
    let unused = ConstantKind::Unused(5);
    assert!(unused.is_none());
    assert_eq!(unused.unchecked_value(), 5);
    let stack = unused.as_stack();
    assert_eq!(stack, ConstantKind::StackValue(5));
    assert_eq!(stack.value(), 5);
    assert_eq!(stack.unwrap_stack_value(), 5);
    let both = stack.as_method();
    assert_eq!(both, ConstantKind::Either(5));
    assert_eq!(both.unwrap_method_ref(), 5);
    assert_eq!(both.unwrap_stack_value(), 5);
    let method = ConstantKind::Unused(9).as_method();
    assert_eq!(method, ConstantKind::MethodRef(9));
    assert_eq!(method.as_method(), ConstantKind::MethodRef(9));
    assert_eq!(method.as_stack(), ConstantKind::Either(9));
    assert!(!method.is_none());
}

#[test]
fn read_block_layout() {
    let data: Vec<u8> = vec![
        0xAA, 0xBB, // skipped prefix
        0x00, 0x00, 0x40, 0x00, // origin
        0x00, 0x00, 0x00, 0x03, // size
        0x01, 0x02, 0x03, // payload
        0x99, // trailing byte
    ];
    let (block, next) = IJVMBlock::read_block(&data, 2).unwrap();
    assert_eq!(block.origin, 0x4000);
    assert_eq!(block.pool_size, 3);
    assert_eq!(block.contents, vec![0x01, 0x02, 0x03]);
    assert_eq!(next, 13);
}

#[test]
fn read_block_truncated() {
    let data: Vec<u8> = vec![0x00, 0x00, 0x40, 0x00, 0x00, 0x00, 0x00, 0x09, 0x01];
    assert_eq!(IJVMBlock::read_block(&data, 0).err().unwrap(), LoadError::TruncatedBlock);
    let short: Vec<u8> = vec![0x00, 0x00, 0x40];
    assert_eq!(IJVMBlock::read_block(&short, 0).err().unwrap(), LoadError::TruncatedBlock);
}

#[test]
fn unused_constants_reported() {
    // Constant 1 is read by LDC_W; constants 0 and 2 are never referenced.
    let consts: Vec<i32> = vec![5, 6, 7];
    let text: Vec<u8> = vec![0x13, 0x00, 0x01, 0xFF];
    let kinds = classify_constants(&consts, &text);
    assert_eq!(kinds[0], ConstantKind::Unused(5));
    assert_eq!(kinds[1], ConstantKind::StackValue(6));
    assert_eq!(kinds[2], ConstantKind::Unused(7));
    assert_eq!(unused_constants(&kinds), vec![0, 2]);
}
