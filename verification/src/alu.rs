//! The value computations of the arithmetic (ALU and ALU64) instructions,
//! stated over mathematical integers and proved for the code that performs
//! them.

use vstd::prelude::*;
use crate::insn::Insn;
use crate::opcode::{
    Class, class_of, BPF_ADD, BPF_SUB, BPF_MUL, BPF_DIV, BPF_OR, BPF_AND, BPF_LSH, BPF_RSH,
    BPF_NEG, BPF_MOD, BPF_XOR, BPF_MOV, BPF_ARSH, BPF_END, BPF_OP_MASK, BPF_SRC_MASK,
};

verus! {

#[derive(Debug, Clone, Copy, PartialEq, Eq, Structural)]
pub enum VmError {
    /// A byte-swap instruction names a width (carried) other than 16, 32 or 64.
    BadByteSwapWidth(i32),
    /// A sign-extending move names a width (carried) other than 8, 16 or 32.
    BadSignExtendWidth(i16),
    /// A register index (carried) that names no register.
    BadRegister(usize),
    /// A write to the read-only frame pointer `r10`.
    WriteToFramePointer,
    /// Execution ran past the last instruction.
    NoExit,
    /// An instruction (its opcode carried) that the interpreter does not run.
    Unimplemented(u8),
}

/// The operation code: the high four bits of the opcode.
pub open spec fn op_of(opcode: u8) -> u8 {
    ((opcode / 16) * 16) as u8
}

/// Whether the source operand is a register (`X`) rather than the immediate.
pub open spec fn source_is_reg(opcode: u8) -> bool {
    (opcode / 8) % 2 == 1
}

pub open spec fn abs(x: int) -> int {
    if x < 0 {
        -x
    } else {
        x
    }
}

/// Division rounding toward zero.
pub open spec fn trunc_div(x: int, d: int) -> int {
    if (x < 0) == (d < 0) {
        abs(x) / abs(d)
    } else {
        -(abs(x) / abs(d))
    }
}

/// The remainder of division rounding toward zero: it takes the sign of
/// the dividend.
pub open spec fn trunc_rem(x: int, d: int) -> int {
    if x < 0 {
        -(abs(x) % abs(d))
    } else {
        abs(x) % abs(d)
    }
}

/// The low 16 bits of `v` with their two bytes exchanged.
pub open spec fn swap16(v: u64) -> u64 {
    ((v % 0x100) * 0x100 + (v / 0x100) % 0x100) as u64
}

/// The low 32 bits of `v` with their four bytes in reverse order.
pub open spec fn swap32(v: u64) -> u64 {
    ((v % 0x100) * 0x100_0000 + ((v / 0x100) % 0x100) * 0x1_0000 + ((v / 0x1_0000) % 0x100) * 0x100
        + (v / 0x100_0000) % 0x100) as u64
}

/// The eight bytes of `v` in reverse order.
pub open spec fn swap64(v: u64) -> u64 {
    ((v % 0x100) * 0x100_0000_0000_0000 + ((v / 0x100) % 0x100) * 0x1_0000_0000_0000 + ((v
        / 0x1_0000) % 0x100) * 0x100_0000_0000 + ((v / 0x100_0000) % 0x100) * 0x1_0000_0000 + ((v
        / 0x1_0000_0000) % 0x100) * 0x100_0000 + ((v / 0x100_0000_0000) % 0x100) * 0x1_0000 + ((v
        / 0x1_0000_0000_0000) % 0x100) * 0x100 + (v / 0x100_0000_0000_0000) % 0x100) as u64
}

/// Keeps the low `width` bits of `v`.
pub open spec fn trunc_width_spec(v: u64, width: i32) -> Result<u64, VmError> {
    if width == 16 {
        Ok((v % 0x1_0000) as u64)
    } else if width == 32 {
        Ok((v % 0x1_0000_0000) as u64)
    } else if width == 64 {
        Ok(v)
    } else {
        Err(VmError::BadByteSwapWidth(width))
    }
}

/// Reverses the byte order of the low `width` bits of `v`.
pub open spec fn byteswap_spec(v: u64, width: i32) -> Result<u64, VmError> {
    if width == 16 {
        Ok(swap16(v))
    } else if width == 32 {
        Ok(swap32(v))
    } else if width == 64 {
        Ok(swap64(v))
    } else {
        Err(VmError::BadByteSwapWidth(width))
    }
}

/// The 32-bit class byte-order conversion between the host's byte order
/// and little endian (`to_big` false) or big endian (`to_big` true): when
/// the target order is the host's own, the low `width` bits are kept,
/// otherwise their bytes are reversed.
pub open spec fn endian_spec(v: u64, width: i32, to_big: bool, host_little_endian: bool) -> Result<u64, VmError> {
    if to_big != host_little_endian {
        trunc_width_spec(v, width)
    } else {
        byteswap_spec(v, width)
    }
}

/// The low `bits` bits of `v` read as a signed number.
pub open spec fn sign_extend_spec(v: u64, bits: i16) -> Result<i64, VmError> {
    if bits == 8 {
        Ok((v as u8 as i8) as i64)
    } else if bits == 16 {
        Ok((v as u16 as i16) as i64)
    } else if bits == 32 {
        Ok((v as u32 as i32) as i64)
    } else {
        Err(VmError::BadSignExtendWidth(bits))
    }
}

/// A 64-bit binary operation `op` on `dst` and `src`: `None` for an
/// operation code that is not one, `Some(None)` when the destination is
/// left as it is (remainder by zero), `Some(Some(v))` when `v` is written.
/// `offset == 1` selects signed division and remainder.
pub open spec fn alu64_spec(op: u8, offset: i16, dst: u64, src: u64) -> Option<Option<u64>> {
    if op == BPF_ADD {
        Some(Some(((dst + src) % 0x1_0000_0000_0000_0000int) as u64))
    } else if op == BPF_SUB {
        Some(Some(((dst - src) % 0x1_0000_0000_0000_0000int) as u64))
    } else if op == BPF_MUL {
        Some(Some(((dst * src) % 0x1_0000_0000_0000_0000int) as u64))
    } else if op == BPF_OR {
        Some(Some(dst | src))
    } else if op == BPF_AND {
        Some(Some(dst & src))
    } else if op == BPF_XOR {
        Some(Some(dst ^ src))
    } else if op == BPF_MOV {
        Some(Some(src))
    } else if op == BPF_LSH {
        Some(Some(dst << ((src % 64) as u32)))
    } else if op == BPF_RSH {
        Some(Some(dst >> ((src % 64) as u32)))
    } else if op == BPF_ARSH {
        Some(Some(((dst as i64) >> ((src % 64) as u32)) as u64))
    } else if op == BPF_DIV {
        if offset == 1 {
            if src as i64 == 0 {
                Some(Some(0))
            } else {
                Some(Some((trunc_div(dst as i64 as int, src as i64 as int) as i64) as u64))
            }
        } else if src == 0 {
            Some(Some(0))
        } else {
            Some(Some(dst / src))
        }
    } else if op == BPF_MOD {
        if offset == 1 {
            if src as i64 == 0 {
                Some(None)
            } else {
                Some(Some((trunc_rem(dst as i64 as int, src as i64 as int) as i64) as u64))
            }
        } else if src == 0 {
            Some(None)
        } else {
            Some(Some(dst % src))
        }
    } else {
        None
    }
}

/// A 32-bit binary operation `op` on the low halves `d` and `s`: `None`
/// for an operation code that is not one. Division by zero gives 0 and
/// remainder by zero gives `d`.
pub open spec fn alu32_spec(op: u8, offset: i16, d: u32, s: u32) -> Option<u32> {
    if op == BPF_ADD {
        Some(((d + s) % 0x1_0000_0000int) as u32)
    } else if op == BPF_SUB {
        Some(((d - s) % 0x1_0000_0000int) as u32)
    } else if op == BPF_MUL {
        Some(((d * s) % 0x1_0000_0000int) as u32)
    } else if op == BPF_OR {
        Some(d | s)
    } else if op == BPF_AND {
        Some(d & s)
    } else if op == BPF_XOR {
        Some(d ^ s)
    } else if op == BPF_MOV {
        Some(s)
    } else if op == BPF_LSH {
        Some(d << (s % 32))
    } else if op == BPF_RSH {
        Some(d >> (s % 32))
    } else if op == BPF_ARSH {
        Some(((d as i32) >> (s % 32)) as u32)
    } else if op == BPF_DIV {
        if offset == 1 {
            if s as i32 == 0 {
                Some(0)
            } else {
                Some((trunc_div(d as i32 as int, s as i32 as int) as i32) as u32)
            }
        } else if s == 0 {
            Some(0)
        } else {
            Some(d / s)
        }
    } else if op == BPF_MOD {
        if offset == 1 {
            if s as i32 == 0 {
                Some(d)
            } else {
                Some((trunc_rem(d as i32 as int, s as i32 as int) as i32) as u32)
            }
        } else if s == 0 {
            Some(d)
        } else {
            Some(d % s)
        }
    } else {
        None
    }
}

/// The value an arithmetic instruction computes from the destination value
/// `dst` and the source operand `src`: `Ok(None)` when the destination is
/// left unwritten, `Ok(Some(v))` when `v` is to be written, or the error.
/// 32-bit results are zero-extended. `host_little_endian` is the host's
/// byte order, which the 32-bit class byte-order conversion depends on.
pub open spec fn alu_value_spec(insn: Insn, dst: u64, src: u64, host_little_endian: bool) -> Result<Option<u64>, VmError> {
    let is64 = class_of(insn.opcode) == Class::Alu64;
    let op = op_of(insn.opcode);
    if op == BPF_END {
        let r = if !is64 {
            endian_spec(dst, insn.imm, source_is_reg(insn.opcode), host_little_endian)
        } else {
            byteswap_spec(dst, insn.imm)
        };
        match r {
            Ok(v) => Ok(Some(v)),
            Err(e) => Err(e),
        }
    } else if op == BPF_NEG {
        if is64 {
            Ok(Some(((0 - dst) % 0x1_0000_0000_0000_0000int) as u64))
        } else {
            Ok(Some(((0 - (dst as u32)) % 0x1_0000_0000int) as u64))
        }
    } else if op == BPF_MOV && insn.offset != 0 {
        match sign_extend_spec(src, insn.offset) {
            Ok(sx) => Ok(Some(if is64 { sx as u64 } else { (sx as u32) as u64 })),
            Err(e) => Err(e),
        }
    } else if is64 {
        match alu64_spec(op, insn.offset, dst, src) {
            Some(r) => Ok(r),
            None => Err(VmError::Unimplemented(insn.opcode)),
        }
    } else {
        match alu32_spec(op, insn.offset, dst as u32, src as u32) {
            Some(r) => Ok(Some(r as u64)),
            None => Err(VmError::Unimplemented(insn.opcode)),
        }
    }
}

/// Truncating division and remainder, case by case on the signs.
proof fn lemma_trunc_cases(x: int, d: int)
    requires
        d != 0,
    ensures
        trunc_div(x, d) == (if x == 0 {
            0
        } else if x > 0 && d > 0 {
            x / d
        } else if x < 0 && d < 0 {
            (x * -1) / (d * -1)
        } else if x < 0 {
            ((x * -1) / d) * -1
        } else {
            (x / (d * -1)) * -1
        }),
        trunc_rem(x, d) == (if x == 0 {
            0
        } else if x > 0 && d > 0 {
            x % d
        } else if x < 0 && d < 0 {
            ((x * -1) % (d * -1)) * -1
        } else if x < 0 {
            ((x * -1) % d) * -1
        } else {
            x % (d * -1)
        }),
{
    if x == 0 {
        assert(0int / abs(d) == 0 && 0int % abs(d) == 0) by (nonlinear_arith)
            requires
                abs(d) > 0,
        ;
    }
}

/// How the operation code and the source bit sit in an opcode.
pub proof fn lemma_opcode_fields(opcode: u8)
    by (bit_vector)
    ensures
        opcode & 0xf0 == op_of(opcode),
        (opcode & 0x08 != 0) == source_is_reg(opcode),
{
}

pub(crate) fn trunc_byte(v: u64, width: i32) -> (r: Result<u64, VmError>)
    ensures
        r == trunc_width_spec(v, width),
{
    if width == 16 {
        assert(v & 0xffff == v % 0x1_0000) by (bit_vector);
        Ok(v & 0xffff)
    } else if width == 32 {
        assert(v & 0xffff_ffff == v % 0x1_0000_0000) by (bit_vector);
        Ok(v & 0xffff_ffff)
    } else if width == 64 {
        Ok(v)
    } else {
        Err(VmError::BadByteSwapWidth(width))
    }
}

pub(crate) fn byteswap(v: u64, width: i32) -> (r: Result<u64, VmError>)
    ensures
        r == byteswap_spec(v, width),
{
    if width == 16 {
        let r = (v % 0x100) * 0x100 + (v / 0x100) % 0x100;
        Ok(r)
    } else if width == 32 {
        let r = (v % 0x100) * 0x100_0000 + ((v / 0x100) % 0x100) * 0x1_0000 + ((v / 0x1_0000) % 0x100)
            * 0x100 + (v / 0x100_0000) % 0x100;
        Ok(r)
    } else if width == 64 {
        let b0 = v % 0x100;
        let b1 = (v / 0x100) % 0x100;
        let b2 = (v / 0x1_0000) % 0x100;
        let b3 = (v / 0x100_0000) % 0x100;
        let b4 = (v / 0x1_0000_0000) % 0x100;
        let b5 = (v / 0x100_0000_0000) % 0x100;
        let b6 = (v / 0x1_0000_0000_0000) % 0x100;
        let b7 = (v / 0x100_0000_0000_0000) % 0x100;
        let r = b0 * 0x100_0000_0000_0000 + b1 * 0x1_0000_0000_0000 + b2 * 0x100_0000_0000 + b3
            * 0x1_0000_0000 + b4 * 0x100_0000 + b5 * 0x1_0000 + b6 * 0x100 + b7;
        Ok(r)
    } else {
        Err(VmError::BadByteSwapWidth(width))
    }
}

/// Byte-order conversion of the 32-bit class on a host of the given byte order.
pub(crate) fn process_endian(v: u64, width: i32, end_flag: bool, host_little_endian: bool) -> (r: Result<u64, VmError>)
    ensures
        r == endian_spec(v, width, end_flag, host_little_endian),
{
    if end_flag != host_little_endian {
        trunc_byte(v, width)
    } else {
        byteswap(v, width)
    }
}

pub(crate) fn sign_extend(v: u64, bits: i16) -> (r: Result<i64, VmError>)
    ensures
        r == sign_extend_spec(v, bits),
{
    if bits == 8 {
        Ok((#[verifier::truncate] (#[verifier::truncate] (v as u8) as i8)) as i64)
    } else if bits == 16 {
        Ok((#[verifier::truncate] (#[verifier::truncate] (v as u16) as i16)) as i64)
    } else if bits == 32 {
        Ok((#[verifier::truncate] (#[verifier::truncate] (v as u32) as i32)) as i64)
    } else {
        Err(VmError::BadSignExtendWidth(bits))
    }
}

#[verifier::spinoff_prover]
pub(crate) fn alu64_op(op: u8, offset: i16, dst: u64, src: u64) -> (r: Option<Option<u64>>)
    ensures
        r == alu64_spec(op, offset, dst, src),
{
    let count = (src & 63) as u32;
    assert(src & 63 == src % 64) by (bit_vector);
    assert(count % 64 == count);
    if op == BPF_ADD {
        let r = dst.wrapping_add(src);
        assert(r == ((dst + src) % 0x1_0000_0000_0000_0000int) as u64);
        Some(Some(r))
    } else if op == BPF_SUB {
        let r = dst.wrapping_sub(src);
        assert(r == ((dst - src) % 0x1_0000_0000_0000_0000int) as u64);
        Some(Some(r))
    } else if op == BPF_MUL {
        let r = dst.wrapping_mul(src);
        assert(r == ((dst * src) % 0x1_0000_0000_0000_0000int) as u64);
        Some(Some(r))
    } else if op == BPF_OR {
        Some(Some(dst | src))
    } else if op == BPF_AND {
        Some(Some(dst & src))
    } else if op == BPF_XOR {
        Some(Some(dst ^ src))
    } else if op == BPF_MOV {
        Some(Some(src))
    } else if op == BPF_LSH {
        let r = dst.wrapping_shl(count);
        assert(r == dst << ((src % 64) as u32));
        Some(Some(r))
    } else if op == BPF_RSH {
        let r = dst.wrapping_shr(count);
        assert(r == dst >> ((src % 64) as u32));
        Some(Some(r))
    } else if op == BPF_ARSH {
        let sd = #[verifier::truncate] (dst as i64);
        let r = sd.wrapping_shr(count);
        assert(r == (dst as i64) >> ((src % 64) as u32));
        Some(Some(#[verifier::truncate] (r as u64)))
    } else if op == BPF_DIV {
        if offset == 1 {
            // signed division; MIN / -1 wraps to MIN
            let s = #[verifier::truncate] (src as i64);
            if s == 0 {
                Some(Some(0))
            } else {
                let sd = #[verifier::truncate] (dst as i64);
                match sd.checked_div(s) {
                    Some(q) => {
                        proof {
                            lemma_trunc_cases(sd as int, s as int);
                        }
                        assert(q as int == trunc_div(sd as int, s as int));
                        Some(Some(#[verifier::truncate] (q as u64)))
                    },
                    None => {
                        assert(0x8000_0000_0000_0000int as i64 == i64::MIN) by (bit_vector);
                        Some(Some(#[verifier::truncate] (sd as u64)))
                    },
                }
            }
        } else if src == 0 {
            Some(Some(0))
        } else {
            Some(Some(dst / src))
        }
    } else if op == BPF_MOD {
        if offset == 1 {
            // signed remainder; MIN % -1 is 0
            let s = #[verifier::truncate] (src as i64);
            if s == 0 {
                Some(None)
            } else {
                let sd = #[verifier::truncate] (dst as i64);
                match sd.checked_rem(s) {
                    Some(q) => {
                        proof {
                            lemma_trunc_cases(sd as int, s as int);
                        }
                        assert(q as int == trunc_rem(sd as int, s as int));
                        Some(Some(#[verifier::truncate] (q as u64)))
                    },
                    None => Some(Some(0)),
                }
            }
        } else if src == 0 {
            Some(None)
        } else {
            Some(Some(dst % src))
        }
    } else {
        None
    }
}

#[verifier::spinoff_prover]
pub(crate) fn alu32_op(op: u8, offset: i16, d: u32, s: u32) -> (r: Option<u32>)
    ensures
        r == alu32_spec(op, offset, d, s),
{
    let count = s & 31;
    assert(s & 31 == s % 32) by (bit_vector);
    assert(count % 32 == count);
    if op == BPF_ADD {
        let r = d.wrapping_add(s);
        assert(r == ((d + s) % 0x1_0000_0000int) as u32);
        Some(r)
    } else if op == BPF_SUB {
        let r = d.wrapping_sub(s);
        assert(r == ((d - s) % 0x1_0000_0000int) as u32);
        Some(r)
    } else if op == BPF_MUL {
        let r = d.wrapping_mul(s);
        assert(r == ((d * s) % 0x1_0000_0000int) as u32);
        Some(r)
    } else if op == BPF_OR {
        Some(d | s)
    } else if op == BPF_AND {
        Some(d & s)
    } else if op == BPF_XOR {
        Some(d ^ s)
    } else if op == BPF_MOV {
        Some(s)
    } else if op == BPF_LSH {
        let r = d.wrapping_shl(count);
        assert(r == d << (s % 32));
        Some(r)
    } else if op == BPF_RSH {
        let r = d.wrapping_shr(count);
        assert(r == d >> (s % 32));
        Some(r)
    } else if op == BPF_ARSH {
        let sd = #[verifier::truncate] (d as i32);
        let r = sd.wrapping_shr(count);
        assert(r == (d as i32) >> (s % 32));
        Some(#[verifier::truncate] (r as u32))
    } else if op == BPF_DIV {
        if offset == 1 {
            let ss = #[verifier::truncate] (s as i32);
            if ss == 0 {
                Some(0)
            } else {
                let sd = #[verifier::truncate] (d as i32);
                match sd.checked_div(ss) {
                    Some(q) => {
                        proof {
                            lemma_trunc_cases(sd as int, ss as int);
                        }
                        assert(q as int == trunc_div(sd as int, ss as int));
                        Some(#[verifier::truncate] (q as u32))
                    },
                    None => {
                        assert(0x8000_0000int as i32 == i32::MIN) by (bit_vector);
                        Some(#[verifier::truncate] (sd as u32))
                    },
                }
            }
        } else if s == 0 {
            Some(0)
        } else {
            Some(d / s)
        }
    } else if op == BPF_MOD {
        if offset == 1 {
            let ss = #[verifier::truncate] (s as i32);
            if ss == 0 {
                Some(d)
            } else {
                let sd = #[verifier::truncate] (d as i32);
                match sd.checked_rem(ss) {
                    Some(q) => {
                        proof {
                            lemma_trunc_cases(sd as int, ss as int);
                        }
                        assert(q as int == trunc_rem(sd as int, ss as int));
                        Some(#[verifier::truncate] (q as u32))
                    },
                    None => Some(0),
                }
            }
        } else if s == 0 {
            Some(d)
        } else {
            Some(d % s)
        }
    } else {
        None
    }
}

} // verus!
