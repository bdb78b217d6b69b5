//! Interpreter core for a small stack-based bytecode virtual machine.
//!
//! The crate loads a binary image (magic header, constant block, text block),
//! classifies the constant pool by how the text uses it, decodes the text into
//! a sequence of instructions with a byte-offset to instruction-index mapping,
//! resolves branch and call placeholders against that mapping, and executes
//! the decoded program on an operand stack and a frame stack.
//!
//! Input and output are modelled as byte buffers owned by the runtime: the
//! `IN` opcode reads the next byte of the input buffer and `OUT` appends the
//! low byte of the popped word to the output buffer. The host hands the input
//! to the loader and collects the output afterwards.

pub mod ijvm;
pub mod ijvm_core;
pub mod instructions;
pub mod laws;
pub mod tiny;
