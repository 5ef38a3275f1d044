use orrel::encode::encode_program;
use orrel::opcode::{
    BPF_ADD, BPF_ALU, BPF_ALU64, BPF_AND, BPF_ARSH, BPF_DIV, BPF_END, BPF_EXIT, BPF_JMP, BPF_LSH,
    BPF_MOD, BPF_MOV, BPF_MUL, BPF_NEG, BPF_OR, BPF_RSH, BPF_SRC_MASK, BPF_SUB, BPF_XOR,
};
use orrel::{decode, Insn, Vm, VmError, FRAME_PTR, FRAME_TOP, NUM_REGS};

#[test]
fn entry_state_zeroes_all_but_frame_pointer() {
    let vm = Vm::new();
    for i in 0..FRAME_PTR {
        assert_eq!(vm.reg(i).unwrap(), 0, "r{i} must start at zero");
    }
    assert_eq!(vm.reg(FRAME_PTR).unwrap(), FRAME_TOP);
}

#[test]
fn general_registers_are_writable() {
    let mut vm = Vm::new();
    for i in 0..FRAME_PTR {
        assert!(vm.set_reg(i, 0xabcd_ef01_2345_6789).is_ok());
        assert_eq!(vm.reg(i).unwrap(), 0xabcd_ef01_2345_6789);
    }
}

#[test]
fn frame_pointer_is_read_only() {
    let mut vm = Vm::new();
    assert_eq!(vm.set_reg(FRAME_PTR, 0), Err(VmError::WriteToFramePointer));
    assert_eq!(vm.reg(FRAME_PTR).unwrap(), FRAME_TOP, "r10 changed");
}

#[test]
fn unsupported_registers_are_rejected() {
    let mut vm = Vm::new();
    assert_eq!(vm.reg(11), Err(VmError::BadRegister(11)));
    assert_eq!(vm.set_reg(11, 0), Err(VmError::BadRegister(11)));
}

fn ins(opcode: u8, dst: u8, src: u8, offset: i16, imm: i32) -> Insn {
    Insn {
        slot: 0,
        opcode,
        src,
        dst,
        offset,
        imm,
        imm64: None,
        slots: 1,
    }
}

fn one(
    opcode: u8,
    dst_val: u64,
    src_reg: Option<(u8, u64)>,
    offset: i16,
    imm: i32,
    dst: u8,
    src: u8,
) -> u64 {
    let mut vm = Vm::new();
    vm.set_reg(dst as usize, dst_val).unwrap();
    if let Some((r, v)) = src_reg {
        vm.set_reg(r as usize, v).unwrap();
    }
    vm.exec_alu(&ins(opcode, dst, src, offset, imm)).unwrap();
    vm.reg(dst as usize).unwrap()
}

#[test]
fn alu64_imm_is_sign_extended() {
    assert_eq!(one(BPF_ALU64 | BPF_ADD, 1, None, 0, -1, 3, 0), 0);
    assert_eq!(
        one(BPF_ALU64 | BPF_MOV, 0, None, 0, -1, 3, 0),
        0xffff_ffff_ffff_ffff
    );
}

#[test]
fn alu32_imm_is_unsigned_and_zero_extends() {
    assert_eq!(
        one(BPF_ALU | BPF_MOV, 0, None, 0, -1, 3, 0),
        0x0000_0000_ffff_ffff
    );
    assert_eq!(
        one(BPF_ALU | BPF_ADD, 0xAAAA_AAAA_0000_0001, None, 0, 1, 3, 0),
        2
    );
}

#[test]
fn div_by_zero_is_zero() {
    assert_eq!(one(BPF_ALU64 | BPF_DIV, 123, None, 0, 0, 3, 0), 0);
    assert_eq!(one(BPF_ALU | BPF_DIV, 123, None, 0, 0, 3, 0), 0);
}

#[test]
fn mod_zero_alu64_unchanged_alu32_upper_zeroed() {
    assert_eq!(
        one(BPF_ALU64 | BPF_MOD, 0xDEAD_BEEF_0000_0007, None, 0, 0, 3, 0),
        0xDEAD_BEEF_0000_0007
    );
    assert_eq!(
        one(BPF_ALU | BPF_MOD, 0xDEAD_BEEF_0000_0007, None, 0, 0, 3, 0),
        0x0000_0000_0000_0007
    );
}

#[test]
fn shift_counts_are_masked() {
    assert_eq!(one(BPF_ALU64 | BPF_LSH, 1, None, 0, 64, 3, 0), 1);
    assert_eq!(one(BPF_ALU64 | BPF_LSH, 1, None, 0, 65, 3, 0), 2);
    assert_eq!(one(BPF_ALU | BPF_LSH, 1, None, 0, 32, 3, 0), 1);
}

#[test]
fn arsh_is_signed() {
    assert_eq!(
        one(
            BPF_ALU64 | BPF_ARSH,
            0x8000_0000_0000_0000,
            None,
            0,
            4,
            3,
            0
        ),
        0xF800_0000_0000_0000
    );
    assert_eq!(
        one(BPF_ALU | BPF_ARSH, 0x8000_0000, None, 0, 4, 3, 0),
        0x0000_0000_F800_0000
    );
}

#[test]
fn movsx_sign_extend() {
    assert_eq!(
        one(
            BPF_ALU64 | BPF_MOV | BPF_SRC_MASK,
            0,
            Some((2, 0x0000_00ff)),
            8,
            0,
            3,
            2
        ),
        0xffff_ffff_ffff_ffff
    );
    assert_eq!(
        one(
            BPF_ALU | BPF_MOV | BPF_SRC_MASK,
            0,
            Some((2, 0x0000_000ff)),
            8,
            0,
            3,
            2
        ),
        0x0000_0000_ffff_ffff
    );
}

#[test]
fn signed_div_mod() {
    assert_eq!(
        one(BPF_ALU64 | BPF_DIV, (-6i64) as u64, None, 1, 4, 3, 0),
        (-1i64) as u64
    );
    assert_eq!(
        one(BPF_ALU64 | BPF_MOD, (-7i64) as u64, None, 1, 3, 3, 0),
        (-1i64) as u64
    );
}

#[test]
fn end_to_end_arithmetic_program() {
    let code: &[u8] = &[
        0xb7, 0x01, 0x00, 0x00, 0x05, 0x00, 0x00, 0x00, // r1  =  5
        0xb7, 0x02, 0x00, 0x00, 0x07, 0x00, 0x00, 0x00, // r2  =  7
        0x0f, 0x21, 0x00, 0x00, 0x00, 0x00, 0x00, 0x00, // r1 += r2 --> 12
        0x27, 0x01, 0x00, 0x00, 0x03, 0x00, 0x00, 0x00, // r1 *=  3 --> 36
        0xbf, 0x10, 0x00, 0x00, 0x00, 0x00, 0x00, 0x00, // r0  = r1
        0x95, 0x00, 0x00, 0x00, 0x00, 0x00, 0x00, 0x00, // exit
    ];
    let prog = decode(code).unwrap();
    let mut vm = Vm::new();
    assert_eq!(vm.run(&prog).unwrap(), 36);
}

#[test]
fn program_without_exit_is_rejected() {
    let code: &[u8] = &[0xb7, 0x00, 0x00, 0x00, 0x01, 0x00, 0x00, 0x00];
    let prog = decode(code).unwrap();
    let mut vm = Vm::new();
    assert_eq!(vm.run(&prog), Err(VmError::NoExit));
}

fn eval_alu(
    opcode: u8,
    dst: u8,
    src: u8,
    offset: i16,
    imm: i32,
    dst_val: u64,
    src_val: u64,
) -> u64 {
    let op = Insn {
        slot: 0,
        opcode,
        dst,
        src,
        offset,
        imm,
        imm64: None,
        slots: 1,
    };
    let exit = Insn {
        slot: 1,
        opcode: BPF_JMP | BPF_EXIT,
        dst: 0,
        src: 0,
        offset: 0,
        imm: 0,
        imm64: None,
        slots: 1,
    };
    let bytes = encode_program(&[op, exit].into());
    let prog = decode(&bytes).expect("decode failed");

    let mut vm = Vm::new();
    vm.set_reg(dst as usize, dst_val).unwrap();
    if src != dst {
        vm.set_reg(src as usize, src_val).unwrap();
    }
    let _ = vm.run(&prog);
    vm.reg(dst as usize).unwrap()
}

#[test]
fn sdiv_overflow_wraps_not_panics() {
    let mn = 0x8000_0000_0000_0000u64;
    let got = eval_alu(BPF_ALU64 | BPF_DIV | BPF_SRC_MASK, 3, 2, 1, 0, mn, (-1i64) as u64);
    assert_eq!(got, mn, "SDIV MIN / -1 must wrap to MIN");
}

#[test]
fn smod_overflow_is_zero() {
    let mn = 0x8000_0000_0000_0000u64;
    let got = eval_alu(BPF_ALU64 | BPF_MOD | BPF_SRC_MASK, 3, 2, 1, 0, mn, (-1i64) as u64);
    assert_eq!(got, 0);
    let got32 = eval_alu(BPF_ALU | BPF_MOD | BPF_SRC_MASK, 3, 2, 1, 0, 0x8000_0000, 0xffff_ffff);
    assert_eq!(got32, 0);
    let div32 = eval_alu(BPF_ALU | BPF_DIV | BPF_SRC_MASK, 3, 2, 1, 0, 0x8000_0000, 0xffff_ffff);
    assert_eq!(div32, 0x8000_0000);
}

const ORDINARY: [u8; 10] = [
    BPF_ADD, BPF_SUB, BPF_MUL, BPF_OR, BPF_AND, BPF_XOR, BPF_MOV, BPF_LSH, BPF_RSH, BPF_ARSH,
];

fn native64(op: u8, dst: u64, src: u64) -> u64 {
    match op {
        BPF_ADD => dst.wrapping_add(src),
        BPF_SUB => dst.wrapping_sub(src),
        BPF_MUL => dst.wrapping_mul(src),
        BPF_OR => dst | src,
        BPF_AND => dst & src,
        BPF_XOR => dst ^ src,
        BPF_MOV => src,
        BPF_LSH => dst.wrapping_shl((src & 63) as u32),
        BPF_RSH => dst.wrapping_shr((src & 63) as u32),
        _ => ((dst as i64).wrapping_shr((src & 63) as u32)) as u64,
    }
}

fn native32(op: u8, dst: u64, src: u64) -> u64 {
    let d = dst as u32;
    let s = src as u32;
    let r = match op {
        BPF_ADD => d.wrapping_add(s),
        BPF_SUB => d.wrapping_sub(s),
        BPF_MUL => d.wrapping_mul(s),
        BPF_OR => d | s,
        BPF_AND => d & s,
        BPF_XOR => d ^ s,
        BPF_MOV => s,
        BPF_LSH => d.wrapping_shl(s & 31),
        BPF_RSH => d.wrapping_shr(s & 31),
        _ => ((d as i32).wrapping_shr(s & 31)) as u32,
    };
    r as u64
}

const VALUES: [u64; 8] = [
    0,
    1,
    7,
    0x7fff_ffff,
    0x8000_0000,
    0xdead_beef_0000_0007,
    0x8000_0000_0000_0000,
    0xffff_ffff_ffff_ffff,
];

#[test]
fn alu64_matches_native_on_samples() {
    for &op in ORDINARY.iter() {
        for &d in VALUES.iter() {
            for &s in VALUES.iter() {
                let got = eval_alu(BPF_ALU64 | op | BPF_SRC_MASK, 3, 2, 0, 0, d, s);
                assert_eq!(got, native64(op, d, s), "ALU64 op 0x{:02x}", op);
            }
        }
    }
}

#[test]
fn alu32_matches_native_and_zero_extends_on_samples() {
    for &op in ORDINARY.iter() {
        for &d in VALUES.iter() {
            for &s in VALUES.iter() {
                let got = eval_alu(BPF_ALU | op | BPF_SRC_MASK, 3, 2, 0, 0, d, s);
                assert_eq!(got, native32(op, d, s), "ALU op 0x{:02x}", op);
                assert_eq!(got >> 32, 0, "ALU op 0x{:02x} left a dirty upper half", op);
            }
        }
    }
}

#[test]
fn div_mod_by_zero_follows_spec_on_samples() {
    for &d in VALUES.iter() {
        assert_eq!(eval_alu(BPF_ALU64 | BPF_DIV, 3, 0, 0, 0, d, 0), 0);
        assert_eq!(eval_alu(BPF_ALU | BPF_DIV, 3, 0, 0, 0, d, 0), 0);
        assert_eq!(eval_alu(BPF_ALU64 | BPF_MOD, 3, 0, 0, 0, d, 0), d);
        assert_eq!(eval_alu(BPF_ALU | BPF_MOD, 3, 0, 0, 0, d, 0), d & 0xffff_ffff);
    }
}

#[test]
fn div_mod_nonzero_matches_native_on_samples() {
    for &d in VALUES.iter() {
        for &s in VALUES.iter().filter(|&&s| s != 0) {
            assert_eq!(eval_alu(BPF_ALU64 | BPF_DIV | BPF_SRC_MASK, 3, 2, 0, 0, d, s), d / s);
            assert_eq!(eval_alu(BPF_ALU64 | BPF_MOD | BPF_SRC_MASK, 3, 2, 0, 0, d, s), d % s);
            let dd = d as u32;
            let ss = (s as u32).max(1);
            assert_eq!(
                eval_alu(BPF_ALU | BPF_DIV | BPF_SRC_MASK, 3, 2, 0, 0, d, ss as u64),
                (dd / ss) as u64
            );
        }
    }
}

#[test]
fn neg_wraps() {
    assert_eq!(one(BPF_ALU64 | BPF_NEG, 1, None, 0, 0, 3, 0), u64::MAX);
    assert_eq!(one(BPF_ALU | BPF_NEG, 0xffff_0000_0000_0001, None, 0, 0, 3, 0), 0xffff_ffff);
    assert_eq!(one(BPF_ALU64 | BPF_NEG, 0, None, 0, 0, 3, 0), 0);
}

#[test]
fn byte_swaps_and_truncations() {
    let v = 0x0102_0304_0506_0708u64;
    // ALU64 END: unconditional swap
    assert_eq!(one(BPF_ALU64 | BPF_END, v, None, 0, 16, 3, 0), 0x0807);
    assert_eq!(one(BPF_ALU64 | BPF_END, v, None, 0, 32, 3, 0), 0x0807_0605);
    assert_eq!(one(BPF_ALU64 | BPF_END, v, None, 0, 64, 3, 0), 0x0807_0605_0403_0201);
    // ALU END: conversion to the host's own byte order truncates, to the
    // other one swaps
    let host_le = 1u16.to_ne_bytes()[0] == 1;
    let (to_be, to_le) = if host_le {
        (BPF_ALU | BPF_END | BPF_SRC_MASK, BPF_ALU | BPF_END)
    } else {
        (BPF_ALU | BPF_END, BPF_ALU | BPF_END | BPF_SRC_MASK)
    };
    assert_eq!(one(to_be, v, None, 0, 16, 3, 0), 0x0807);
    assert_eq!(one(to_be, v, None, 0, 64, 3, 0), 0x0807_0605_0403_0201);
    assert_eq!(one(to_le, v, None, 0, 16, 3, 0), 0x0708);
    assert_eq!(one(to_le, v, None, 0, 32, 3, 0), 0x0506_0708);
    assert_eq!(one(to_le, v, None, 0, 64, 3, 0), v);
}

#[test]
fn every_error_variant_arises() {
    let mut vm = Vm::new();
    assert_eq!(vm.exec_alu(&ins(BPF_ALU64 | BPF_END, 3, 0, 0, 24)), Err(VmError::BadByteSwapWidth(24)));
    assert_eq!(vm.exec_alu(&ins(BPF_ALU | BPF_END, 3, 0, 0, 8)), Err(VmError::BadByteSwapWidth(8)));
    assert_eq!(vm.exec_alu(&ins(BPF_ALU64 | BPF_MOV, 3, 0, 4, 0)), Err(VmError::BadSignExtendWidth(4)));
    assert_eq!(vm.exec_alu(&ins(BPF_ALU64 | BPF_ADD, 12, 0, 0, 0)), Err(VmError::BadRegister(12)));
    assert_eq!(
        vm.exec_alu(&ins(BPF_ALU64 | BPF_ADD | BPF_SRC_MASK, 3, 13, 0, 0)),
        Err(VmError::BadRegister(13))
    );
    assert_eq!(vm.exec_alu(&ins(BPF_ALU64 | BPF_ADD, 10, 0, 0, 1)), Err(VmError::WriteToFramePointer));
    assert_eq!(vm.exec_alu(&ins(BPF_ALU64 | 0xe0, 3, 0, 0, 1)), Err(VmError::Unimplemented(0xe7)));
    assert_eq!(vm.exec_alu(&ins(BPF_ALU | 0xf0, 3, 0, 0, 1)), Err(VmError::Unimplemented(0xf4)));
    assert_eq!(vm.run(&[ins(0x61, 1, 2, 0, 0)]), Err(VmError::Unimplemented(0x61)));
    assert_eq!(vm.run(&[]), Err(VmError::NoExit));
    // the failed instructions left the register file as it was
    for i in 0..NUM_REGS {
        let want = if i == FRAME_PTR { FRAME_TOP } else { 0 };
        assert_eq!(vm.reg(i).unwrap(), want);
    }
}

#[test]
fn mod_by_zero_on_frame_pointer_writes_nothing() {
    // a 64-bit remainder by zero leaves the destination unwritten, so even
    // r10 as destination is no error
    let mut vm = Vm::new();
    assert_eq!(vm.exec_alu(&ins(BPF_ALU64 | BPF_MOD, 10, 0, 0, 0)), Ok(()));
    assert_eq!(vm.reg(FRAME_PTR).unwrap(), FRAME_TOP);
    assert_eq!(vm.exec_alu(&ins(BPF_ALU | BPF_MOD, 10, 0, 0, 0)), Err(VmError::WriteToFramePointer));
}

#[test]
fn writes_do_not_bleed_across_registers() {
    for target in 0..FRAME_PTR {
        let mut vm = Vm::new();
        vm.set_reg(target, 0x1234_5678_9abc_def0).unwrap();
        for other in 0..NUM_REGS {
            if other == target {
                continue;
            }
            let expected = if other == FRAME_PTR { FRAME_TOP } else { 0 };
            assert_eq!(vm.reg(other).unwrap(), expected);
        }
    }
}

#[test]
fn accessor_trichotomy_on_all_indices() {
    for index in 0..=15usize {
        let mut vm = Vm::new();
        let fp_before = vm.reg(FRAME_PTR).expect("r10 is always readable");
        if index < FRAME_PTR {
            assert!(vm.set_reg(index, 42).is_ok());
            assert_eq!(vm.reg(index).unwrap(), 42);
        } else if index == FRAME_PTR {
            assert_eq!(vm.set_reg(index, 42), Err(VmError::WriteToFramePointer));
            assert_eq!(vm.reg(index).unwrap(), fp_before);
        } else {
            assert_eq!(vm.set_reg(index, 42), Err(VmError::BadRegister(index)));
            assert_eq!(vm.reg(index), Err(VmError::BadRegister(index)));
        }
    }
}

#[test]
fn run_reports_unimplemented_and_stops() {
    let mut vm = Vm::new();
    let prog = [ins(BPF_ALU64 | BPF_MOV, 1, 0, 0, 9), ins(0x61, 1, 2, 0, 0), ins(0x95, 0, 0, 0, 0)];
    assert_eq!(vm.run(&prog), Err(VmError::Unimplemented(0x61)));
    assert_eq!(vm.reg(1).unwrap(), 9);
    let exit_only = [ins(0x95, 0, 0, 0, 0)];
    let mut vm2 = Vm::default();
    assert_eq!(vm2.run(&exit_only), Ok(0));
}
