//! An eBPF instruction decoder and encoder, and a small interpreter for its
//! arithmetic instructions, with their behaviour stated and proved.

pub mod opcode;
pub mod insn;
pub mod encode;
pub mod stream_laws;
pub mod alu;
pub mod vm;
pub mod objdump;
pub mod oracle;
pub mod vm_laws;
pub mod alu_laws;
pub mod objdump_laws;

pub use insn::{decode, DecoderError, Insn};
pub use encode::{encode_insn, encode_program};
pub use alu::VmError;
pub use vm::{Vm, FRAME_PTR, FRAME_TOP, NUM_REGS, STACK_BASE, STACK_SIZE};
