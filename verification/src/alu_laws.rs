//! What the arithmetic instructions compute, stated by the relations their
//! results satisfy: quotient and remainder, negation, sign extension, byte
//! order, and the bitwise operations bit by bit.

use vstd::prelude::*;
use vstd::arithmetic::div_mod::{lemma_fundamental_div_mod, lemma_mod_bound};
use crate::insn::Insn;
use crate::opcode::{
    Class, class_of, BPF_AND, BPF_DIV, BPF_END, BPF_MOD, BPF_MOV, BPF_NEG, BPF_OR, BPF_XOR,
};
use crate::alu::{
    VmError, abs, alu_value_spec, op_of, source_is_reg, swap16, swap32, swap64, trunc_div, trunc_rem,
};

verus! {

/// Unsigned division and remainder (`offset != 1`) by a nonzero divisor:
/// the quotient `q` is the largest with `q * s <= d`, and the remainder `r`
/// is below `s` and differs from `d` by a multiple of `s`. In the 32-bit
/// class `d` and `s` are the low halves and the result is zero-extended.
pub proof fn lemma_unsigned_div_mod(insn: Insn, dst: u64, src: u64, host_little_endian: bool)
    requires
        class_of(insn.opcode) == Class::Alu || class_of(insn.opcode) == Class::Alu64,
        op_of(insn.opcode) == BPF_DIV || op_of(insn.opcode) == BPF_MOD,
        insn.offset != 1,
    ensures
        ({
            let wide = class_of(insn.opcode) == Class::Alu64;
            let d: int = if wide { dst as int } else { dst as int % 0x1_0000_0000 };
            let s: int = if wide { src as int } else { src as int % 0x1_0000_0000 };
            s != 0 ==> match alu_value_spec(insn, dst, src, host_little_endian) {
                Ok(Some(v)) => if op_of(insn.opcode) == BPF_DIV {
                    v * s <= d && d < v * s + s
                } else {
                    v < s && (d - v) % s == 0
                },
                _ => false,
            }
        }),
{
    let wide = class_of(insn.opcode) == Class::Alu64;
    let d: int = if wide { dst as int } else { dst as int % 0x1_0000_0000 };
    let s: int = if wide { src as int } else { src as int % 0x1_0000_0000 };
    assert((dst as u32) as int == dst as int % 0x1_0000_0000) by (bit_vector);
    assert((src as u32) as int == src as int % 0x1_0000_0000) by (bit_vector);
    if s != 0 {
        lemma_fundamental_div_mod(d, s);
        lemma_mod_bound(d, s);
        assert(d / s >= 0) by (nonlinear_arith)
            requires
                d >= 0,
                s > 0,
        ;
        assert((d / s) * s == s * (d / s)) by (nonlinear_arith);
        if op_of(insn.opcode) == BPF_MOD {
            assert((d - d % s) % s == 0) by {
                vstd::arithmetic::div_mod::lemma_mod_multiples_basic(d / s, s);
            }
        }
    }
}

/// Signed division (`offset == 1`) by a nonzero divisor, short of the one
/// overflowing case `MIN / -1`: read as signed, the quotient `q` and the
/// remainder `r = x - q * y` satisfy `|r| < |y|`, and `r` is zero or has the
/// sign of the dividend `x` (division rounds toward zero). 64-bit class.
pub proof fn lemma_signed_div64(insn: Insn, dst: u64, src: u64, host_little_endian: bool)
    requires
        class_of(insn.opcode) == Class::Alu64,
        op_of(insn.opcode) == BPF_DIV,
        insn.offset == 1,
        src as i64 != 0,
        !(dst as i64 == i64::MIN && src as i64 == -1),
    ensures
        ({
            let x = dst as i64 as int;
            let y = src as i64 as int;
            match alu_value_spec(insn, dst, src, host_little_endian) {
                Ok(Some(v)) => {
                    let r = x - (v as i64 as int) * y;
                    &&& abs(r) < abs(y)
                    &&& (r == 0 || (r < 0) == (x < 0))
                },
                _ => false,
            }
        }),
{
    let x = dst as i64 as int;
    let y = src as i64 as int;
    lemma_trunc_div_rem(x, y);
    let q = trunc_div(x, y);
    assert(-0x8000_0000_0000_0000 <= q <= 0x7fff_ffff_ffff_ffff) by {
        lemma_trunc_div_bound(x, y, 0x8000_0000_0000_0000);
    }
    assert((q as i64) as int == q);
    let v = (q as i64) as u64;
    assert((v as i64) == (q as i64)) by {
        let t = q as i64;
        assert((t as u64) as i64 == t) by (bit_vector);
    }
}

/// Signed remainder (`offset == 1`) by a nonzero divisor, 64-bit class:
/// read as signed, the result `r` satisfies `|r| < |y|`, is zero or has the
/// sign of the dividend `x`, and differs from `x` by a multiple of `y`.
pub proof fn lemma_signed_mod64(insn: Insn, dst: u64, src: u64, host_little_endian: bool)
    requires
        class_of(insn.opcode) == Class::Alu64,
        op_of(insn.opcode) == BPF_MOD,
        insn.offset == 1,
        src as i64 != 0,
    ensures
        ({
            let x = dst as i64 as int;
            let y = src as i64 as int;
            match alu_value_spec(insn, dst, src, host_little_endian) {
                Ok(Some(v)) => {
                    let r = v as i64 as int;
                    &&& abs(r) < abs(y)
                    &&& (r == 0 || (r < 0) == (x < 0))
                    &&& (x - r) % abs(y) == 0
                },
                _ => false,
            }
        }),
{
    let x = dst as i64 as int;
    let y = src as i64 as int;
    lemma_trunc_div_rem(x, y);
    let r = trunc_rem(x, y);
    assert(abs(r) < abs(y));
    assert(-0x8000_0000_0000_0000 <= r <= 0x7fff_ffff_ffff_ffff);
    assert((r as i64) as int == r);
    let t = r as i64;
    assert((t as u64) as i64 == t) by (bit_vector);
    let q = trunc_div(x, y);
    if y > 0 {
        assert(x - r == q * abs(y));
        vstd::arithmetic::div_mod::lemma_mod_multiples_basic(q, abs(y));
    } else {
        assert(q * y == (-q) * abs(y)) by (nonlinear_arith)
            requires
                abs(y) == -y,
        ;
        assert(x - r == (-q) * abs(y));
        vstd::arithmetic::div_mod::lemma_mod_multiples_basic(-q, abs(y));
    }
}

/// Signed division and remainder (`offset == 1`) in the 32-bit class by a
/// nonzero divisor: with `x` and `y` the low halves read as signed, the
/// quotient `q` (short of the overflowing `MIN / -1`) leaves a remainder
/// `x - q * y` that is smaller than `y` in size and zero or of the sign of
/// `x`; the remainder `r` has those two properties and differs from `x` by
/// a multiple of `y`. Either is written zero-extended.
pub proof fn lemma_signed_div_mod32(insn: Insn, dst: u64, src: u64, host_little_endian: bool)
    requires
        class_of(insn.opcode) == Class::Alu,
        op_of(insn.opcode) == BPF_DIV || op_of(insn.opcode) == BPF_MOD,
        insn.offset == 1,
        src as u32 as i32 != 0,
        op_of(insn.opcode) == BPF_DIV ==> !(dst as u32 as i32 == i32::MIN && src as u32 as i32
            == -1),
    ensures
        ({
            let x = dst as u32 as i32 as int;
            let y = src as u32 as i32 as int;
            match alu_value_spec(insn, dst, src, host_little_endian) {
                Ok(Some(v)) => {
                    let w = v as u32 as i32 as int;
                    &&& v < 0x1_0000_0000
                    &&& if op_of(insn.opcode) == BPF_DIV {
                        let r = x - w * y;
                        abs(r) < abs(y) && (r == 0 || (r < 0) == (x < 0))
                    } else {
                        &&& abs(w) < abs(y)
                        &&& (w == 0 || (w < 0) == (x < 0))
                        &&& (x - w) % abs(y) == 0
                    }
                },
                _ => false,
            }
        }),
{
    let x = dst as u32 as i32 as int;
    let y = src as u32 as i32 as int;
    lemma_trunc_div_rem(x, y);
    let q = trunc_div(x, y);
    let r = trunc_rem(x, y);
    if op_of(insn.opcode) == BPF_DIV {
        lemma_trunc_div_bound(x, y, 0x8000_0000);
        assert((q as i32) as int == q);
        let t = q as i32;
        assert(((t as u32) as u64) as u32 as i32 == t) by (bit_vector);
    } else {
        assert(-0x8000_0000 <= r < 0x8000_0000);
        assert((r as i32) as int == r);
        let t = r as i32;
        assert(((t as u32) as u64) as u32 as i32 == t) by (bit_vector);
        if y > 0 {
            assert(x - r == q * abs(y));
            vstd::arithmetic::div_mod::lemma_mod_multiples_basic(q, abs(y));
        } else {
            assert(q * y == (-q) * abs(y)) by (nonlinear_arith)
                requires
                    abs(y) == -y,
            ;
            assert(x - r == (-q) * abs(y));
            vstd::arithmetic::div_mod::lemma_mod_multiples_basic(-q, abs(y));
        }
    }
}

/// The one signed quotient that does not fit, `MIN / -1`, wraps to `MIN`,
/// and `MIN % -1` is zero: in the 64-bit class over all 64 bits, in the
/// 32-bit class over the low halves (zero-extended).
pub proof fn lemma_signed_overflow_wraps(insn: Insn, dst: u64, src: u64, host_little_endian: bool)
    requires
        class_of(insn.opcode) == Class::Alu || class_of(insn.opcode) == Class::Alu64,
        op_of(insn.opcode) == BPF_DIV || op_of(insn.opcode) == BPF_MOD,
        insn.offset == 1,
        class_of(insn.opcode) == Class::Alu64 ==> dst == 0x8000_0000_0000_0000 && src
            == 0xffff_ffff_ffff_ffff,
        class_of(insn.opcode) == Class::Alu ==> dst as u32 == 0x8000_0000 && src as u32
            == 0xffff_ffff,
    ensures
        alu_value_spec(insn, dst, src, host_little_endian) == Ok::<Option<u64>, VmError>(
            Some(
                if op_of(insn.opcode) == BPF_MOD {
                    0
                } else if class_of(insn.opcode) == Class::Alu64 {
                    dst
                } else {
                    0x8000_0000
                },
            ),
        ),
{
    if class_of(insn.opcode) == Class::Alu64 {
        assert(dst as i64 == i64::MIN && src as i64 == -1 && (0x8000_0000_0000_0000int as i64) as u64
            == dst) by (bit_vector)
            requires
                dst == 0x8000_0000_0000_0000 && src == 0xffff_ffff_ffff_ffff,
        ;
        let x = i64::MIN as int;
        assert(trunc_div(x, -1) == 0x8000_0000_0000_0000int);
        assert(trunc_rem(x, -1) == 0) by {
            assert(abs(x) % 1 == 0);
        }
    } else {
        assert(dst as u32 as i32 == i32::MIN && src as u32 as i32 == -1 && (0x8000_0000int as i32)
            as u32 == 0x8000_0000) by (bit_vector)
            requires
                dst as u32 == 0x8000_0000 && src as u32 == 0xffff_ffff,
        ;
        let x = i32::MIN as int;
        assert(trunc_div(x, -1) == 0x8000_0000int);
        assert(trunc_rem(x, -1) == 0) by {
            assert(abs(x) % 1 == 0);
        }
    }
}

/// Truncating division and remainder put the dividend back together, the
/// remainder is smaller than the divisor in size and follows the sign of
/// the dividend.
proof fn lemma_trunc_div_rem(x: int, y: int)
    requires
        y != 0,
    ensures
        trunc_div(x, y) * y + trunc_rem(x, y) == x,
        abs(trunc_rem(x, y)) < abs(y),
        trunc_rem(x, y) == 0 || (trunc_rem(x, y) < 0) == (x < 0),
{
    let a = abs(x);
    let b = abs(y);
    lemma_fundamental_div_mod(a, b);
    lemma_mod_bound(a, b);
    let q = a / b;
    let m = a % b;
    assert(b * q == q * b) by (nonlinear_arith);
    if x < 0 && y < 0 {
        assert(q * y == -(q * b)) by (nonlinear_arith)
            requires
                y == -b,
        ;
    } else if x < 0 {
        assert((-q) * y == -(q * b)) by (nonlinear_arith)
            requires
                y == b,
        ;
    } else if y < 0 {
        assert((-q) * y == q * b) by (nonlinear_arith)
            requires
                y == -b,
        ;
    }
}

/// In a signed range `[-m, m)`, truncating division overflows only for
/// `-m / -1`.
proof fn lemma_trunc_div_bound(x: int, y: int, m: int)
    requires
        y != 0,
        m >= 1,
        -m <= x < m,
        -m <= y < m,
        !(x == -m && y == -1),
    ensures
        -m <= trunc_div(x, y) < m,
{
    let a = abs(x);
    let b = abs(y);
    assert(a / b <= a) by (nonlinear_arith)
        requires
            a >= 0,
            b >= 1,
    ;
    assert(a / b >= 0) by (nonlinear_arith)
        requires
            a >= 0,
            b >= 1,
    ;
    if b >= 2 {
        assert(a / b <= a / 2) by (nonlinear_arith)
            requires
                a >= 0,
                b >= 2,
        ;
    }
}

/// Negation: the result added to the destination gives zero, modulo 2^64
/// in the 64-bit class, and modulo 2^32 (with a zero upper half) in the
/// 32-bit class.
pub proof fn lemma_negation(insn: Insn, dst: u64, src: u64, host_little_endian: bool)
    requires
        class_of(insn.opcode) == Class::Alu || class_of(insn.opcode) == Class::Alu64,
        op_of(insn.opcode) == BPF_NEG,
    ensures
        match alu_value_spec(insn, dst, src, host_little_endian) {
            Ok(Some(v)) => if class_of(insn.opcode) == Class::Alu64 {
                (dst + v) % 0x1_0000_0000_0000_0000int == 0
            } else {
                v < 0x1_0000_0000 && (dst % 0x1_0000_0000 + v) % 0x1_0000_0000int == 0
            },
            _ => false,
        },
{
    assert((dst as u32) as int == dst as int % 0x1_0000_0000) by (bit_vector);
}

/// The value of the low `w` bits of `v` (`w` being 8, 16 or 32) read as a
/// signed `w`-bit number, written back as 64 bits in two's complement: the
/// low bits, plus ones in every bit from `w` up when bit `w - 1` is set.
pub open spec fn sign_extended(v: u64, w: int) -> int {
    let m: int = if w == 8 {
        0x100
    } else if w == 16 {
        0x1_0000
    } else {
        0x1_0000_0000
    };
    let low = v as int % m;
    if low < m / 2 {
        low
    } else {
        low + 0x1_0000_0000_0000_0000 - m
    }
}

proof fn lemma_sign_extend_bits(v: u64)
    by (bit_vector)
    ensures
        (v & 0x80 == 0) ==> ((v as u8 as i8) as i64) as u64 == v & 0xff,
        (v & 0x80 != 0) ==> ((v as u8 as i8) as i64) as u64 == (v & 0xff) | 0xffff_ffff_ffff_ff00,
        (v & 0x8000 == 0) ==> ((v as u16 as i16) as i64) as u64 == v & 0xffff,
        (v & 0x8000 != 0) ==> ((v as u16 as i16) as i64) as u64 == (v & 0xffff) | 0xffff_ffff_ffff_0000,
        (v & 0x8000_0000 == 0) ==> ((v as u32 as i32) as i64) as u64 == v & 0xffff_ffff,
        (v & 0x8000_0000 != 0) ==> ((v as u32 as i32) as i64) as u64 == (v & 0xffff_ffff)
            | 0xffff_ffff_0000_0000,
{
}

proof fn lemma_low_bits(v: u64)
    by (bit_vector)
    ensures
        v & 0xff == v % 0x100,
        (v & 0x80 == 0) == (v % 0x100 < 0x80),
        (v & 0xff) | 0xffff_ffff_ffff_ff00 == v % 0x100 + 0xffff_ffff_ffff_ff00,
        v & 0xffff == v % 0x1_0000,
        (v & 0x8000 == 0) == (v % 0x1_0000 < 0x8000),
        (v & 0xffff) | 0xffff_ffff_ffff_0000 == v % 0x1_0000 + 0xffff_ffff_ffff_0000,
        v & 0xffff_ffff == v % 0x1_0000_0000,
        (v & 0x8000_0000 == 0) == (v % 0x1_0000_0000 < 0x8000_0000),
        (v & 0xffff_ffff) | 0xffff_ffff_0000_0000 == v % 0x1_0000_0000 + 0xffff_ffff_0000_0000,
{
}

/// The sign-extending move (a move with offset 8, 16 or 32): in the 64-bit
/// class the destination becomes the source's low `offset` bits read as a
/// signed number, in two's complement over 64 bits; in the 32-bit class,
/// the low 32 bits of that, zero-extended.
pub proof fn lemma_sign_extending_move(insn: Insn, dst: u64, src: u64, host_little_endian: bool)
    requires
        class_of(insn.opcode) == Class::Alu || class_of(insn.opcode) == Class::Alu64,
        op_of(insn.opcode) == BPF_MOV,
        insn.offset == 8 || insn.offset == 16 || insn.offset == 32,
    ensures
        match alu_value_spec(insn, dst, src, host_little_endian) {
            Ok(Some(v)) => if class_of(insn.opcode) == Class::Alu64 {
                v == sign_extended(src, insn.offset as int)
            } else {
                v == sign_extended(src, insn.offset as int) % 0x1_0000_0000
            },
            _ => false,
        },
{
    lemma_sign_extend_bits(src);
    lemma_low_bits(src);
    let sx: i64 = if insn.offset == 8 {
        (src as u8 as i8) as i64
    } else if insn.offset == 16 {
        (src as u16 as i16) as i64
    } else {
        (src as u32 as i32) as i64
    };
    lemma_low_half_of_signed(sx);
}

proof fn lemma_low_half_of_signed(t: i64)
    by (bit_vector)
    ensures
        ((t as u32) as u64) as int == (t as u64) as int % 0x1_0000_0000,
{
}

/// Byte `i` of `v`, counting from the least significant.
pub open spec fn byte_of(v: u64, i: u64) -> u8 {
    ((v >> (8 * i)) & 0xff) as u8
}

/// The low `n` bytes of `v`, least significant first: its little-endian
/// layout in memory.
pub open spec fn le_bytes(v: u64, n: nat) -> Seq<u8> {
    Seq::new(n, |i: int| byte_of(v, i as u64))
}

/// `bytes` followed by zero bytes, eight bytes in all.
pub open spec fn zero_padded(bytes: Seq<u8>) -> Seq<u8> {
    bytes + Seq::new((8 - bytes.len()) as nat, |i: int| 0u8)
}

proof fn lemma_swap_bytes(v: u64)
    by (bit_vector)
    ensures
        forall|i: u64| i < 8 ==> #[trigger] byte_of(swap64(v), i) == byte_of(v, (7 - i) as u64),
        forall|i: u64| i < 4 ==> #[trigger] byte_of(swap32(v), i) == byte_of(v, (3 - i) as u64),
        forall|i: u64| 4 <= i < 8 ==> #[trigger] byte_of(swap32(v), i) == 0,
        forall|i: u64| i < 2 ==> #[trigger] byte_of(swap16(v), i) == byte_of(v, (1 - i) as u64),
        forall|i: u64| 2 <= i < 8 ==> #[trigger] byte_of(swap16(v), i) == 0,
        forall|i: u64|
            i < 4 ==> #[trigger] byte_of((v % 0x1_0000_0000) as u64, i) == byte_of(v, i),
        forall|i: u64| 4 <= i < 8 ==> #[trigger] byte_of((v % 0x1_0000_0000) as u64, i) == 0,
        forall|i: u64| i < 2 ==> #[trigger] byte_of((v % 0x1_0000) as u64, i) == byte_of(v, i),
        forall|i: u64| 2 <= i < 8 ==> #[trigger] byte_of((v % 0x1_0000) as u64, i) == 0,
{
}

/// The byte swap (`END` in the 64-bit class, whatever its source bit): for
/// a width of 16, 32 or 64 bits, the eight bytes of the result are the
/// destination's low `width / 8` bytes in reverse order, then zeros. Any
/// other width is refused.
pub proof fn lemma_byte_swap(insn: Insn, dst: u64, src: u64, host_little_endian: bool)
    requires
        class_of(insn.opcode) == Class::Alu64,
        op_of(insn.opcode) == BPF_END,
    ensures
        insn.imm == 16 || insn.imm == 32 || insn.imm == 64 ==> (match alu_value_spec(
            insn,
            dst,
            src,
            host_little_endian,
        ) {
            Ok(Some(r)) => le_bytes(r, 8) == zero_padded(
                le_bytes(dst, (insn.imm / 8) as nat).reverse(),
            ),
            _ => false,
        }),
        !(insn.imm == 16 || insn.imm == 32 || insn.imm == 64) ==> alu_value_spec(
            insn,
            dst,
            src,
            host_little_endian,
        ) == Err::<Option<u64>, VmError>(VmError::BadByteSwapWidth(insn.imm)),
{
    lemma_swap_bytes(dst);
    if insn.imm == 16 || insn.imm == 32 || insn.imm == 64 {
        let n = insn.imm / 8;
        let r = alu_value_spec(insn, dst, src, host_little_endian)->Ok_0->Some_0;
        assert(le_bytes(r, 8) =~= zero_padded(le_bytes(dst, n as nat).reverse())) by {
            assert forall|i: int| 0 <= i < 8 implies #[trigger] le_bytes(r, 8)[i] == zero_padded(
                le_bytes(dst, n as nat).reverse(),
            )[i] by {
                assert(byte_of(r, i as u64) == le_bytes(r, 8)[i]);
                if i < n {
                    assert(byte_of(dst, (n - 1 - i) as u64) == le_bytes(dst, n as nat)[n - 1 - i]);
                }
            }
        }
    }
}

/// The byte-order conversion of the 32-bit class (`END` with the source
/// bit choosing big endian): for a width of 16, 32 or 64 bits, converting
/// to the byte order of the host keeps the destination's low `width / 8`
/// bytes as they are, converting to the other order reverses them; every
/// byte above them becomes zero. Any other width is refused.
pub proof fn lemma_byte_order_conversion(insn: Insn, dst: u64, src: u64, host_little_endian: bool)
    requires
        class_of(insn.opcode) == Class::Alu,
        op_of(insn.opcode) == BPF_END,
    ensures
        insn.imm == 16 || insn.imm == 32 || insn.imm == 64 ==> (match alu_value_spec(
            insn,
            dst,
            src,
            host_little_endian,
        ) {
            Ok(Some(r)) => le_bytes(r, 8) == zero_padded(
                if source_is_reg(insn.opcode) != host_little_endian {
                    le_bytes(dst, (insn.imm / 8) as nat)
                } else {
                    le_bytes(dst, (insn.imm / 8) as nat).reverse()
                },
            ),
            _ => false,
        }),
        !(insn.imm == 16 || insn.imm == 32 || insn.imm == 64) ==> alu_value_spec(
            insn,
            dst,
            src,
            host_little_endian,
        ) == Err::<Option<u64>, VmError>(VmError::BadByteSwapWidth(insn.imm)),
{
    lemma_swap_bytes(dst);
    if insn.imm == 16 || insn.imm == 32 || insn.imm == 64 {
        let n = insn.imm / 8;
        let r = alu_value_spec(insn, dst, src, host_little_endian)->Ok_0->Some_0;
        let kept = source_is_reg(insn.opcode) != host_little_endian;
        let want = zero_padded(
            if kept {
                le_bytes(dst, n as nat)
            } else {
                le_bytes(dst, n as nat).reverse()
            },
        );
        assert(le_bytes(r, 8) =~= want) by {
            assert forall|i: int| 0 <= i < 8 implies #[trigger] le_bytes(r, 8)[i] == want[i] by {
                assert(byte_of(r, i as u64) == le_bytes(r, 8)[i]);
                if i < n {
                    assert(byte_of(dst, i as u64) == le_bytes(dst, n as nat)[i]);
                    assert(byte_of(dst, (n - 1 - i) as u64) == le_bytes(dst, n as nat)[n - 1 - i]);
                }
            }
        }
    }
}

/// Bit `i` of `v`, counting from the least significant.
pub open spec fn bit_of(v: u64, i: u64) -> bool {
    (v >> i) & 1 == 1
}

proof fn lemma_bitwise_bits(d: u64, s: u64)
    by (bit_vector)
    ensures
        forall|i: u64| i < 64 ==> #[trigger] bit_of(d & s, i) == (bit_of(d, i) && bit_of(s, i)),
        forall|i: u64| i < 64 ==> #[trigger] bit_of(d | s, i) == (bit_of(d, i) || bit_of(s, i)),
        forall|i: u64| i < 64 ==> #[trigger] bit_of(d ^ s, i) == (bit_of(d, i) != bit_of(s, i)),
        forall|i: u64|
            i < 32 ==> #[trigger] bit_of(((d as u32) & (s as u32)) as u64, i) == (bit_of(d, i)
                && bit_of(s, i)),
        forall|i: u64|
            i < 32 ==> #[trigger] bit_of(((d as u32) | (s as u32)) as u64, i) == (bit_of(d, i)
                || bit_of(s, i)),
        forall|i: u64|
            i < 32 ==> #[trigger] bit_of(((d as u32) ^ (s as u32)) as u64, i) == (bit_of(d, i)
                != bit_of(s, i)),
        ((d as u32) & (s as u32)) as u64 >> 32 == 0,
        ((d as u32) | (s as u32)) as u64 >> 32 == 0,
        ((d as u32) ^ (s as u32)) as u64 >> 32 == 0,
{
}

/// AND, OR and XOR work bit by bit: bit `i` of the result is set exactly
/// when bit `i` is set in both operands (AND), in either (OR), in just one
/// (XOR), for every bit of the 64-bit class and for the low 32 bits of the
/// 32-bit class, whose upper half becomes zero.
pub proof fn lemma_bitwise(insn: Insn, dst: u64, src: u64, host_little_endian: bool)
    requires
        class_of(insn.opcode) == Class::Alu || class_of(insn.opcode) == Class::Alu64,
        op_of(insn.opcode) == BPF_AND || op_of(insn.opcode) == BPF_OR || op_of(insn.opcode)
            == BPF_XOR,
    ensures
        match alu_value_spec(insn, dst, src, host_little_endian) {
            Ok(Some(r)) => {
                let width: u64 = if class_of(insn.opcode) == Class::Alu64 { 64 } else { 32 };
                &&& width == 32 ==> r >> 32 == 0
                &&& forall|i: u64|
                    i < width ==> #[trigger] bit_of(r, i) == (if op_of(insn.opcode) == BPF_AND {
                        bit_of(dst, i) && bit_of(src, i)
                    } else if op_of(insn.opcode) == BPF_OR {
                        bit_of(dst, i) || bit_of(src, i)
                    } else {
                        bit_of(dst, i) != bit_of(src, i)
                    })
            },
            _ => false,
        },
{
    lemma_bitwise_bits(dst, src);
}

/// The operation codes above `END` name no arithmetic operation: an
/// arithmetic instruction with one is refused as unimplemented, carrying
/// its opcode, in either class and whatever its operands.
pub proof fn lemma_undefined_operation_refused(insn: Insn, dst: u64, src: u64, host_little_endian: bool)
    requires
        class_of(insn.opcode) == Class::Alu || class_of(insn.opcode) == Class::Alu64,
        op_of(insn.opcode) > BPF_END,
    ensures
        alu_value_spec(insn, dst, src, host_little_endian) == Err::<Option<u64>, VmError>(
            VmError::Unimplemented(insn.opcode),
        ),
{
}

} // verus!
