//! Whole-program scenarios: load an image from bytes, run it, and check
//! the output stream, the final stack, and the decoded program.

use copp_rs::ijvm_core::init_ijvm_bytes;
use copp_rs::instructions::MemoryBlock;

/// Builds a program image: magic word, constant block, text block.
fn image(consts: &[i32], text: &[u8]) -> Vec<u8> {
    let mut data: Vec<u8> = vec![0x1D, 0xEA, 0xDF, 0xAD];
    data.extend_from_slice(&[0, 0, 0x40, 0x00]);
    data.extend_from_slice(&(4 * consts.len() as u32).to_be_bytes());
    for c in consts {
        data.extend_from_slice(&c.to_be_bytes());
    }
    data.extend_from_slice(&[0, 0, 0x00, 0x00]);
    data.extend_from_slice(&(text.len() as u32).to_be_bytes());
    data.extend_from_slice(text);
    data
}

#[test]
fn s1_addition_output() {
    let img = image(&[], &[0x10, 0x30, 0x10, 0x31, 0x60, 0xFD, 0xFF]);
    let mut rt = init_ijvm_bytes(&img, Vec::new()).unwrap();
    rt.run();
    assert!(rt.is_finished());
    assert_eq!(rt.inner.out_stream(), &vec![0x61u8]);
    assert_eq!(rt.inner.stack_len(), 0);
}

#[test]
fn s1_decoded_program() {
    let img = image(&[], &[0x10, 0x30, 0x10, 0x31, 0x60, 0xFD, 0xFF]);
    let rt = init_ijvm_bytes(&img, Vec::new()).unwrap();
    assert_eq!(rt.constants().len(), 0);
    let program = rt.visit_instructions();
    assert_eq!(program.len(), 5);
    assert_eq!(program[0], MemoryBlock::BIPUSH(0x30));
    assert_eq!(program[1], MemoryBlock::BIPUSH(0x31));
    assert_eq!(program[2], MemoryBlock::IADD);
    assert_eq!(program[3], MemoryBlock::OUT);
    assert_eq!(program[4], MemoryBlock::HALT);
}

#[test]
fn s2_constant_load() {
    // NOP, LDC_W 0, DUP, LDC_W 1, IADD, LDC_W 2, IADD, OUT, NOP, HALT over
    // the pool [1, 2, 3]: the stack runs [1], [1,1], [1,1,2], [1,3],
    // [1,3,3], [1,6]; OUT emits 6 and one word stays behind.
    let img = image(
        &[1, 2, 3],
        &[
            0x00, 0x13, 0x00, 0x00, 0x59, 0x13, 0x00, 0x01, 0x60, 0x13, 0x00, 0x02, 0x60, 0xFD,
            0x00, 0xFF,
        ],
    );
    let mut rt = init_ijvm_bytes(&img, Vec::new()).unwrap();
    assert_eq!(rt.constants(), &vec![1, 2, 3]);
    rt.run();
    assert!(rt.is_finished());
    assert_eq!(rt.inner.out_stream(), &vec![6u8]);
    assert_eq!(rt.inner.stack_len(), 1);
    assert_eq!(rt.tos(), 1);
}

#[test]
fn s3_forward_goto() {
    // The GOTO's byte offset lands inside the first BIPUSH, which maps to
    // that instruction; the program pushes once and halts at the first HALT.
    let img = image(&[], &[0xA7, 0x00, 0x04, 0x10, 0x05, 0xFF, 0x10, 0x07, 0xFF]);
    let mut rt = init_ijvm_bytes(&img, Vec::new()).unwrap();
    rt.run();
    assert!(rt.is_finished());
    assert!(rt.trap().is_none());
}

#[test]
fn s4_loop_with_ifeq() {
    // BIPUSH -5, ISTORE 0; L: ILOAD 0, IFEQ END, ILOAD 0, OUT, IINC 0 1,
    // GOTO L; END: HALT. The counter climbs from -5 to 0, emitting the low
    // byte each round.
    let img = image(
        &[],
        &[
            0x10, 0xFB, 0x36, 0x00, 0x15, 0x00, 0x99, 0x00, 0x0C, 0x15, 0x00, 0xFD, 0x84, 0x00,
            0x01, 0xA7, 0xFF, 0xF5, 0xFF,
        ],
    );
    let mut rt = init_ijvm_bytes(&img, Vec::new()).unwrap();
    rt.run();
    assert!(rt.is_finished());
    assert!(rt.trap().is_none());
    assert_eq!(rt.inner.out_stream(), &vec![0xFBu8, 0xFC, 0xFD, 0xFE, 0xFF]);
    assert_eq!(rt.inner.stack_len(), 0);
}

#[test]
fn bipush_iadd_pairs() {
    for (a, b) in [(1i8, 2i8), (-1, 1), (127, 127), (-128, -128), (0, 0), (0x30, 0x31)] {
        let img = image(&[], &[0x10, a as u8, 0x10, b as u8, 0x60, 0xFF]);
        let mut rt = init_ijvm_bytes(&img, Vec::new()).unwrap();
        rt.run();
        assert!(rt.is_finished());
        assert_eq!(rt.inner.stack_len(), 1);
        assert_eq!(rt.tos(), (a as i32).wrapping_add(b as i32));
    }
}

#[test]
fn isub_order_and_wrap() {
    // ISUB computes second minus top, wrapping on overflow.
    let img = image(&[], &[0x10, 0x07, 0x10, 0x02, 0x64, 0xFF]);
    let mut rt = init_ijvm_bytes(&img, Vec::new()).unwrap();
    rt.run();
    assert_eq!(rt.tos(), 5);

    let img2 = image(&[i32::MIN], &[0x13, 0x00, 0x00, 0x10, 0x01, 0x64, 0xFF]);
    let mut rt2 = init_ijvm_bytes(&img2, Vec::new()).unwrap();
    rt2.run();
    assert_eq!(rt2.tos(), i32::MAX);
}

#[test]
fn logic_swap_pop_dup() {
    // BIPUSH 0x0F, BIPUSH 0x35, IAND -> 0x05; BIPUSH 0x30, IOR -> 0x35;
    // DUP, POP leaves it; BIPUSH 1, SWAP, POP drops the 0x35 and keeps 1.
    let img = image(
        &[],
        &[
            0x10, 0x0F, 0x10, 0x35, 0x7E, 0x10, 0x30, 0xB0, 0x59, 0x57, 0x10, 0x01, 0x5F, 0x57,
            0xFF,
        ],
    );
    let mut rt = init_ijvm_bytes(&img, Vec::new()).unwrap();
    rt.run();
    assert!(rt.trap().is_none());
    assert_eq!(rt.inner.stack_len(), 1);
    assert_eq!(rt.tos(), 1);
}

#[test]
fn iinc_widens_delta_unsigned() {
    // The delta byte is added as an unsigned widening: 0xFF adds 255, it
    // does not subtract one.
    let img = image(
        &[],
        &[0x10, 0x05, 0x36, 0x00, 0x84, 0x00, 0xFF, 0x15, 0x00, 0xFF],
    );
    let mut rt = init_ijvm_bytes(&img, Vec::new()).unwrap();
    rt.run();
    assert_eq!(rt.tos(), 260);
}

#[test]
fn wide_forms() {
    // WIDE widens the local index to sixteen bits: WIDE ISTORE 0x0100 and
    // WIDE ILOAD 0x0100 round-trip a value; WIDE IINC of local 0x0101 adds
    // its one-byte delta, widened unsigned, so 0xFF adds 255.
    let img = image(
        &[],
        &[
            0x10, 0x28, 0xC4, 0x36, 0x01, 0x00, 0xC4, 0x15, 0x01, 0x00, 0xC4, 0x84, 0x01, 0x01,
            0xFF, 0xC4, 0x15, 0x01, 0x01, 0xFF,
        ],
    );
    let mut rt = init_ijvm_bytes(&img, Vec::new()).unwrap();
    rt.run();
    assert!(rt.trap().is_none());
    assert_eq!(rt.inner.stack_len(), 2);
    assert_eq!(rt.tos(), 255);
}

#[test]
fn in_reads_bytes_then_zero() {
    // IN, OUT, IN, OUT, IN (end of input pushes 0), HALT.
    let img = image(&[], &[0xFC, 0xFD, 0xFC, 0xFD, 0xFC, 0xFF]);
    let mut rt = init_ijvm_bytes(&img, vec![0x61, 0x9C]).unwrap();
    rt.run();
    assert_eq!(rt.inner.out_stream(), &vec![0x61u8, 0x9C]);
    assert_eq!(rt.inner.stack_len(), 1);
    assert_eq!(rt.tos(), 0);
}

#[test]
fn out_emits_low_byte() {
    // A negative word's low byte: -2 emits 0xFE.
    let img = image(&[], &[0x10, 0xFE, 0xFD, 0xFF]);
    let mut rt = init_ijvm_bytes(&img, Vec::new()).unwrap();
    rt.run();
    assert_eq!(rt.inner.out_stream(), &vec![0xFEu8]);
}

#[test]
fn falls_off_end_without_halt() {
    let img = image(&[], &[0x10, 0x2A]);
    let mut rt = init_ijvm_bytes(&img, Vec::new()).unwrap();
    rt.run();
    assert!(rt.is_finished());
    assert!(rt.trap().is_none());
    assert_eq!(rt.tos(), 0x2A);
}

#[test]
fn iflt_taken_and_not_taken() {
    // BIPUSH -1, IFLT +5 skips the OUT of 0x11; BIPUSH 1, IFLT +5 falls
    // through to the OUT of 0x22.
    let img = image(
        &[],
        &[
            0x10, 0xFF, 0x9B, 0x00, 0x06, 0x10, 0x11, 0xFD, 0x10, 0x01, 0x9B, 0x00, 0x06, 0x10,
            0x22, 0xFD, 0xFF,
        ],
    );
    let mut rt = init_ijvm_bytes(&img, Vec::new()).unwrap();
    rt.run();
    assert!(rt.trap().is_none());
    assert_eq!(rt.inner.out_stream(), &vec![0x22u8]);
}

#[test]
fn if_icmpeq_taken_and_not_taken() {
    // Equal pair branches over the OUT of 0x11; unequal pair falls through
    // to the OUT of 0x22.
    let img = image(
        &[],
        &[
            0x10, 0x07, 0x10, 0x07, 0x9F, 0x00, 0x06, 0x10, 0x11, 0xFD, 0x10, 0x07, 0x10, 0x08,
            0x9F, 0x00, 0x06, 0x10, 0x22, 0xFD, 0xFF,
        ],
    );
    let mut rt = init_ijvm_bytes(&img, Vec::new()).unwrap();
    rt.run();
    assert!(rt.trap().is_none());
    assert_eq!(rt.inner.out_stream(), &vec![0x22u8]);
    assert_eq!(rt.inner.stack_len(), 0);
}

#[test]
fn steps_after_finish_change_nothing() {
    let img = image(&[], &[0x10, 0x2A, 0xFF]);
    let mut rt = init_ijvm_bytes(&img, Vec::new()).unwrap();
    rt.run();
    assert!(rt.is_finished());
    let pc = rt.program_counter();
    rt.steps(5);
    assert_eq!(rt.program_counter(), pc);
    assert_eq!(rt.tos(), 0x2A);
    assert!(rt.is_finished());
}

#[test]
fn reset_replays_identically() {
    // Run a program that consumes input and emits output, reset, run
    // again: the same output bytes and the same final stack.
    let img = image(
        &[],
        &[0xFC, 0x10, 0x01, 0x60, 0xFD, 0x10, 0x07, 0xFF],
    );
    let mut rt = init_ijvm_bytes(&img, vec![0x41]).unwrap();
    rt.run();
    let first_out = rt.inner.out_stream().clone();
    let first_tos = rt.tos();
    let first_len = rt.inner.stack_len();
    assert_eq!(first_out, vec![0x42u8]);
    rt.reset();
    assert_eq!(rt.inner.out_stream().len(), 0);
    assert_eq!(rt.inner.stack_len(), 0);
    assert_eq!(rt.program_counter(), 0);
    assert!(!rt.is_finished());
    rt.run();
    assert_eq!(rt.inner.out_stream(), &first_out);
    assert_eq!(rt.tos(), first_tos);
    assert_eq!(rt.inner.stack_len(), first_len);
}
