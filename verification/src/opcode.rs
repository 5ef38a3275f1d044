//! Numeric constants of the BPF instruction set (RFC 9669) and the
//! instruction class carried by the low three bits of an opcode.

use vstd::prelude::*;

verus! {

pub const BPF_CLASS_MASK: u8 = 0x07;

pub const BPF_LD: u8 = 0x00;

pub const BPF_LDX: u8 = 0x01;

pub const BPF_ST: u8 = 0x02;

pub const BPF_STX: u8 = 0x03;

pub const BPF_ALU: u8 = 0x04;

pub const BPF_JMP: u8 = 0x05;

pub const BPF_JMP32: u8 = 0x06;

pub const BPF_ALU64: u8 = 0x07;

/// The source bit: set for a register operand (`X`), clear for the immediate (`K`).
pub const BPF_SRC_MASK: u8 = 0x08;

pub const BPF_OP_MASK: u8 = 0xf0;

pub const BPF_SIZE_MASK: u8 = 0x18;

pub const BPF_MODE_MASK: u8 = 0xe0;

pub const BPF_W: u8 = 0x00;

pub const BPF_H: u8 = 0x08;

pub const BPF_B: u8 = 0x10;

pub const BPF_DW: u8 = 0x18;

pub const BPF_IMM: u8 = 0x00;

/// The wide (two-slot) 64-bit immediate load: `BPF_LD | BPF_IMM | BPF_DW`.
pub const BPF_LD_IMM_DW: u8 = 0x18;

// Arithmetic operation codes (the high four bits of an ALU opcode).
pub const BPF_ADD: u8 = 0x00;

pub const BPF_SUB: u8 = 0x10;

pub const BPF_MUL: u8 = 0x20;

pub const BPF_DIV: u8 = 0x30;

pub const BPF_OR: u8 = 0x40;

pub const BPF_AND: u8 = 0x50;

pub const BPF_LSH: u8 = 0x60;

pub const BPF_RSH: u8 = 0x70;

pub const BPF_NEG: u8 = 0x80;

pub const BPF_MOD: u8 = 0x90;

pub const BPF_XOR: u8 = 0xa0;

pub const BPF_MOV: u8 = 0xb0;

pub const BPF_ARSH: u8 = 0xc0;

pub const BPF_END: u8 = 0xd0;

// Jump operation codes used here.
pub const BPF_JA: u8 = 0x00;

pub const BPF_CALL: u8 = 0x80;

pub const BPF_EXIT: u8 = 0x90;

#[derive(Debug, Clone, Copy, PartialEq, Eq, Structural)]
pub enum Class {
    Ld,
    Ldx,
    St,
    Stx,
    Alu,
    Jmp,
    Jmp32,
    Alu64,
}

/// The class named by the low three bits of `opcode`.
pub open spec fn class_of(opcode: u8) -> Class {
    let c = opcode % 8;
    if c == 0 {
        Class::Ld
    } else if c == 1 {
        Class::Ldx
    } else if c == 2 {
        Class::St
    } else if c == 3 {
        Class::Stx
    } else if c == 4 {
        Class::Alu
    } else if c == 5 {
        Class::Jmp
    } else if c == 6 {
        Class::Jmp32
    } else {
        Class::Alu64
    }
}

impl Class {
    /// The class of an opcode; every opcode has one.
    pub fn from_opcode(opcode: u8) -> (c: Class)
        ensures
            c == class_of(opcode),
    {
        let bits = opcode & BPF_CLASS_MASK;
        assert(opcode & 0x07 == opcode % 8) by (bit_vector);
        if bits == BPF_LD {
            Class::Ld
        } else if bits == BPF_LDX {
            Class::Ldx
        } else if bits == BPF_ST {
            Class::St
        } else if bits == BPF_STX {
            Class::Stx
        } else if bits == BPF_ALU {
            Class::Alu
        } else if bits == BPF_JMP {
            Class::Jmp
        } else if bits == BPF_JMP32 {
            Class::Jmp32
        } else {
            Class::Alu64
        }
    }
}

} // verus!
