//! Invocation and frame scenarios: method headers, argument passing,
//! locals, and the return protocol, observed step by step.

use copp_rs::ijvm_core::init_ijvm_bytes;

/// Builds a program image: magic word, constant block, text block.
fn image(consts: &[i32], text: &[u8]) -> Vec<u8> {
    let mut data: Vec<u8> = vec![0x1D, 0xEA, 0xDF, 0xAD];
    data.extend_from_slice(&[0, 0, 0x40, 0x00]);
    data.extend_from_slice(&(4 * consts.len() as u32).to_be_bytes());
    for c in consts {
        data.extend_from_slice(&c.to_be_bytes());
    }
    data.extend_from_slice(&[0, 0, 0x00, 0x00]);
    data.extend_from_slice(&(text.len() as u32).to_be_bytes());
    data.extend_from_slice(text);
    data
}

#[test]
fn test_invokenoargs() {
    // main: BIPUSH 0x42, INVOKEVIRTUAL, NOP, HALT; callee (no arguments,
    // one local): BIPUSH 0x43, NOP, IRETURN.
    let img = image(
        &[7],
        &[
            0x10, 0x42, 0xB6, 0x00, 0x00, 0x00, 0xFF, // main
            0x00, 0x00, 0x00, 0x01, // method header
            0x10, 0x43, 0x00, 0xAC, // callee
        ],
    );
    let mut runtime = init_ijvm_bytes(&img, Vec::new()).unwrap();

    runtime.steps(2);
    assert_eq!(runtime.tos(), 0x42);
    runtime.steps(2);
    assert_eq!(runtime.tos(), 0x43);
    runtime.steps(2);
    assert_eq!(runtime.tos(), 0x43);
}

#[test]
fn test_invoke1() {
    // main: NOP, BIPUSH 0, BIPUSH 1, INVOKEVIRTUAL, BIPUSH 2, HALT;
    // callee (two arguments, two locals): ILOAD 1, IRETURN.
    let img = image(
        &[11],
        &[
            0x00, 0x10, 0x00, 0x10, 0x01, 0xB6, 0x00, 0x00, 0x10, 0x02, 0xFF, // main
            0x00, 0x02, 0x00, 0x02, // method header
            0x15, 0x01, 0xAC, // callee
        ],
    );
    let mut runtime = init_ijvm_bytes(&img, Vec::new()).unwrap();

    runtime.steps(3);
    let pc = runtime.program_counter();
    runtime.step();
    assert_ne!(runtime.program_counter(), pc + 1);
    runtime.step();
    assert_eq!(runtime.tos(), 0x1);
    runtime.steps(2);
}

#[test]
fn test_ireturn1() {
    let img = image(
        &[11],
        &[
            0x00, 0x10, 0x00, 0x10, 0x01, 0xB6, 0x00, 0x00, 0x10, 0x02, 0xFF, // main
            0x00, 0x02, 0x00, 0x02, // method header
            0x15, 0x01, 0xAC, // callee
        ],
    );
    let mut runtime = init_ijvm_bytes(&img, Vec::new()).unwrap();

    runtime.steps(6);
    assert_eq!(runtime.tos(), 0x1);
    runtime.step();
    assert_eq!(runtime.tos(), 0x2);
}

#[test]
fn test_invoke2() {
    // main: NOP, NOP, NOP, BIPUSH 1, BIPUSH 9, INVOKEVIRTUAL, HALT;
    // callee (two arguments, three locals): BIPUSH 2, BIPUSH 3, IADD, NOP,
    // BIPUSH 2, IRETURN.
    let img = image(
        &[11],
        &[
            0x00, 0x00, 0x00, 0x10, 0x01, 0x10, 0x09, 0xB6, 0x00, 0x00, 0xFF, // main
            0x00, 0x02, 0x00, 0x03, // method header
            0x10, 0x02, 0x10, 0x03, 0x60, 0x00, 0x10, 0x02, 0xAC, // callee
        ],
    );
    let mut runtime = init_ijvm_bytes(&img, Vec::new()).unwrap();

    runtime.steps(5);
    let pc = runtime.program_counter();
    runtime.step();
    assert_ne!(runtime.program_counter(), pc + 1);
    runtime.step();
    assert_eq!(runtime.tos(), 0x2);
    runtime.step();
    assert_eq!(runtime.tos(), 0x3);
    runtime.steps(3);
}

#[test]
fn test_ireturn2() {
    let img = image(
        &[11],
        &[
            0x00, 0x00, 0x00, 0x10, 0x01, 0x10, 0x09, 0xB6, 0x00, 0x00, 0xFF, // main
            0x00, 0x02, 0x00, 0x03, // method header
            0x10, 0x02, 0x10, 0x03, 0x60, 0x00, 0x10, 0x02, 0xAC, // callee
        ],
    );
    let mut runtime = init_ijvm_bytes(&img, Vec::new()).unwrap();

    runtime.steps(10);
    assert_eq!(runtime.tos(), 0x5);
    runtime.step();
    assert_eq!(runtime.tos(), 0x2);
}

#[test]
fn test_frame() {
    // main: BIPUSH 4, ISTORE 0, NOP, NOP, BIPUSH 2, BIPUSH 3, ISTORE 1,
    // BIPUSH 9, BIPUSH 2, BIPUSH 3, INVOKEVIRTUAL, POP, HALT; callee
    // (three arguments, three locals): NOP, BIPUSH 5, IRETURN.
    let img = image(
        &[23],
        &[
            0x10, 0x04, 0x36, 0x00, 0x00, 0x00, 0x10, 0x02, 0x10, 0x03, 0x36, 0x01, 0x10, 0x09,
            0x10, 0x02, 0x10, 0x03, 0xB6, 0x00, 0x00, 0x57, 0xFF, // main
            0x00, 0x03, 0x00, 0x03, // method header
            0x00, 0x10, 0x05, 0xAC, // callee
        ],
    );
    let mut runtime = init_ijvm_bytes(&img, Vec::new()).unwrap();

    runtime.steps(6);
    assert_eq!(runtime.frame().load_var(0), 0x4);
    runtime.step();
    assert_eq!(runtime.frame().load_var(1), 0x3);

    runtime.steps(5);
    assert_eq!(runtime.frame().load_var(1), 0x2);
    assert_eq!(runtime.frame().load_var(2), 0x3);

    runtime.steps(2);
    assert_eq!(runtime.tos(), 0x5);
    runtime.step();
    assert_eq!(runtime.tos(), 0x2);
    assert_eq!(runtime.frame().load_var(0), 0x4);
    assert_eq!(runtime.frame().load_var(1), 0x3);
}

#[test]
fn test_nested_frame() {
    // main sets locals 0x21 and 0x2C and invokes the first method with
    // arguments (0, 1, 5); that method invokes the second with (0, 9);
    // each return restores the caller's locals and entry stack height.
    let img = image(
        &[22, 40],
        &[
            0x10, 0x21, 0x36, 0x00, 0x10, 0x2C, 0x36, 0x01, 0x00, 0x00, 0x10, 0x05, 0x10, 0x00,
            0x10, 0x01, 0x10, 0x05, 0xB6, 0x00, 0x00, 0xFF, // main
            0x00, 0x03, 0x00, 0x03, // first method header
            0x10, 0x06, 0x10, 0x00, 0x10, 0x09, 0xB6, 0x00, 0x01, 0x00, 0x00, 0x10, 0x10,
            0xAC, // first method
            0x00, 0x02, 0x00, 0x02, // second method header
            0x10, 0x0A, 0x00, 0x00, 0x00, 0x00, 0xAC, // second method
        ],
    );
    let mut runtime = init_ijvm_bytes(&img, Vec::new()).unwrap();

    runtime.steps(7);
    assert_eq!(runtime.tos(), 0x5);
    assert_eq!(runtime.frame().load_var(0), 0x21);
    assert_eq!(runtime.frame().load_var(1), 0x2C);

    runtime.steps(5);
    assert_eq!(runtime.tos(), 0x6);
    assert_eq!(runtime.frame().load_var(1), 0x1);
    assert_eq!(runtime.frame().load_var(2), 0x5);

    runtime.steps(8);
    assert_eq!(runtime.tos(), 0xA);
    assert_eq!(runtime.frame().load_var(1), 9);

    runtime.steps(3);
    assert_eq!(runtime.tos(), 0xA);
    assert_eq!(runtime.frame().load_var(1), 0x1);
    assert_eq!(runtime.frame().load_var(2), 0x5);

    runtime.steps(2);
    assert_eq!(runtime.tos(), 0x10);
    assert_eq!(runtime.frame().load_var(0), 0x21);
    assert_eq!(runtime.frame().load_var(1), 0x2C);
}

#[test]
fn s5_invoke_return() {
    // main pushes an implicit first argument and 0x41, invokes a method
    // declaring two arguments and two locals; the method returns its local
    // 1. After the return the top of stack is 0x41 and the stack stands
    // one above the entry height.
    let img = image(
        &[8],
        &[
            0x10, 0x00, 0x10, 0x41, 0xB6, 0x00, 0x00, 0xFF, // main
            0x00, 0x02, 0x00, 0x02, // method header
            0x15, 0x01, 0xAC, // callee: ILOAD 1, IRETURN
        ],
    );
    let mut rt = init_ijvm_bytes(&img, Vec::new()).unwrap();
    rt.run();
    assert!(rt.is_finished());
    assert!(rt.trap().is_none());
    assert_eq!(rt.tos(), 0x41);
    assert_eq!(rt.inner.stack_len(), 1);
}

#[test]
fn s6_nested_invoke_preserves_caller_locals() {
    // main invokes a method with arguments (11, 22); that method makes a
    // nested call, discards its result, and then reads its own locals
    // back: they still hold 11 and 22, and their sum comes back to main.
    let img = image(
        &[8, 26],
        &[
            0x10, 0x0B, 0x10, 0x16, 0xB6, 0x00, 0x00, 0xFF, // main
            0x00, 0x02, 0x00, 0x02, // first method header
            0x10, 0x01, 0x10, 0x02, 0xB6, 0x00, 0x01, 0x57, 0x15, 0x00, 0x15, 0x01, 0x60,
            0xAC, // first method
            0x00, 0x02, 0x00, 0x02, // second method header
            0x15, 0x01, 0xAC, // second method
        ],
    );
    let mut rt = init_ijvm_bytes(&img, Vec::new()).unwrap();
    rt.run();
    assert!(rt.is_finished());
    assert!(rt.trap().is_none());
    assert_eq!(rt.tos(), 33);
    assert_eq!(rt.inner.stack_len(), 1);
}
