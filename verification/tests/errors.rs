//! Load errors and execution traps: each error variant produced by an
//! input that provokes it, and recovery by reset.

use copp_rs::ijvm_core::init_ijvm_bytes;
use copp_rs::ijvm_core::LoadError;
use copp_rs::ijvm_core::TrapError;

/// The load error an image provokes.
fn load_err(img: &Vec<u8>) -> LoadError {
    match init_ijvm_bytes(img, Vec::new()) {
        Err(e) => e,
        Ok(_) => panic!("expected a load error"),
    }
}

/// Builds a program image: magic word, constant block, text block.
fn image(consts: &[i32], text: &[u8]) -> Vec<u8> {
    let mut data: Vec<u8> = vec![0x1D, 0xEA, 0xDF, 0xAD];
    data.extend_from_slice(&[0, 0, 0x40, 0x00]);
    data.extend_from_slice(&(4 * consts.len() as u32).to_be_bytes());
    for c in consts {
        data.extend_from_slice(&c.to_be_bytes());
    }
    data.extend_from_slice(&[0, 0, 0x00, 0x00]);
    data.extend_from_slice(&(text.len() as u32).to_be_bytes());
    data.extend_from_slice(text);
    data
}

#[test]
fn invalid_header() {
    let mut img = image(&[], &[0xFF]);
    img[0] = 0x1E;
    assert_eq!(load_err(&img), LoadError::InvalidHeader);
}

#[test]
fn truncated_image() {
    let img: Vec<u8> = vec![0x1D, 0xEA, 0xDF];
    assert_eq!(load_err(&img), LoadError::TruncatedBlock);
}

#[test]
fn truncated_block() {
    let mut img = image(&[], &[0x00, 0xFF]);
    img.truncate(img.len() - 1);
    assert_eq!(load_err(&img), LoadError::TruncatedBlock);
}

#[test]
fn truncated_operand() {
    // BIPUSH without its operand byte.
    let img = image(&[], &[0x00, 0x10]);
    assert_eq!(load_err(&img), LoadError::TruncatedBlock);
}

#[test]
fn invalid_wide_opcode() {
    // WIDE followed by IADD.
    let img = image(&[], &[0xC4, 0x60, 0xFF]);
    assert_eq!(load_err(&img), LoadError::InvalidWideOpcode);
}

#[test]
fn ldcw_index_out_of_pool() {
    // LDC_W against an index beyond the constant pool.
    let img = image(&[], &[0x13, 0x00, 0x00, 0xFF]);
    assert_eq!(load_err(&img), LoadError::BadConstantKind);
}

#[test]
fn invoke_index_out_of_pool() {
    // INVOKEVIRTUAL against an index beyond the constant pool.
    let img = image(&[9], &[0xB6, 0x00, 0x05, 0xFF]);
    assert_eq!(load_err(&img), LoadError::BadConstantKind);
}

#[test]
fn dual_use_constant_loads_but_invoke_traps() {
    // A constant consulted by both LDC_W and INVOKEVIRTUAL is tagged as
    // usable either way, so the load succeeds and LDC_W pushes its raw
    // value. The decoder emits method headers only at offsets tagged as
    // method references alone, so the call aims at a plain instruction and
    // traps at run time.
    let img = image(
        &[8],
        &[
            0x13, 0x00, 0x00, 0xB6, 0x00, 0x00, 0x00, 0xFF, // main
            0x00, 0x01, 0x00, 0x01, // bytes the dual-tagged offset points at
            0xAC,
        ],
    );
    let mut rt = init_ijvm_bytes(&img, Vec::new()).unwrap();
    rt.run();
    assert_eq!(rt.trap(), Some(TrapError::BadInvokeTarget));
    assert_eq!(rt.tos(), 8);
}

#[test]
fn branch_to_first_instruction() {
    // A branch landing on the first instruction cannot store its
    // pre-decremented index.
    let img = image(&[], &[0xA7, 0x00, 0x00, 0xFF]);
    assert_eq!(load_err(&img), LoadError::BadBranchTarget);
}

#[test]
fn invoke_offset_outside_text() {
    // The method reference's value lies beyond the text.
    let img = image(&[99], &[0xB6, 0x00, 0x00, 0xFF]);
    assert_eq!(load_err(&img), LoadError::BadInvokeTarget);
}

#[test]
fn branch_outside_text() {
    let img = image(&[], &[0xA7, 0x00, 0x40, 0xFF]);
    assert_eq!(load_err(&img), LoadError::BadBranchTarget);
}

#[test]
fn trap_stack_underflow() {
    let img = image(&[], &[0x60, 0xFF]);
    let mut rt = init_ijvm_bytes(&img, Vec::new()).unwrap();
    rt.run();
    assert!(rt.is_finished());
    assert_eq!(rt.trap(), Some(TrapError::StackUnderflow));
}

#[test]
fn trap_err_instruction() {
    let img = image(&[], &[0x10, 0x01, 0xFE, 0xFF]);
    let mut rt = init_ijvm_bytes(&img, Vec::new()).unwrap();
    rt.run();
    assert_eq!(rt.trap(), Some(TrapError::ErrInstruction));
}

#[test]
fn trap_ireturn_without_frame() {
    // IRETURN with only the sentinel frame underneath.
    let img = image(&[], &[0x10, 0x01, 0xAC, 0xFF]);
    let mut rt = init_ijvm_bytes(&img, Vec::new()).unwrap();
    rt.run();
    assert_eq!(rt.trap(), Some(TrapError::StackUnderflow));
}

#[test]
fn reset_recovers_from_trap() {
    // The first run traps on ERR; after reset the runtime replays from a
    // clean state and traps identically, with the pre-trap output intact.
    let img = image(&[], &[0x10, 0x2A, 0xFD, 0xFE, 0xFF]);
    let mut rt = init_ijvm_bytes(&img, Vec::new()).unwrap();
    rt.run();
    assert_eq!(rt.trap(), Some(TrapError::ErrInstruction));
    assert_eq!(rt.inner.out_stream(), &vec![0x2Au8]);
    rt.reset();
    assert!(rt.trap().is_none());
    assert!(!rt.is_finished());
    rt.run();
    assert_eq!(rt.trap(), Some(TrapError::ErrInstruction));
    assert_eq!(rt.inner.out_stream(), &vec![0x2Au8]);
}

#[test]
fn trap_stack_overflow() {
    // NOP; L: BIPUSH 1, GOTO L pushes until the operand stack's capacity.
    let img = image(&[], &[0x00, 0x10, 0x01, 0xA7, 0xFF, 0xFE, 0xFF]);
    let mut rt = init_ijvm_bytes(&img, Vec::new()).unwrap();
    rt.run();
    assert!(rt.is_finished());
    assert_eq!(rt.trap(), Some(TrapError::StackOverflow));
}
