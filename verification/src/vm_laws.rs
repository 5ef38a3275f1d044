//! Properties of the register file and of arithmetic execution that hold
//! across calls and for every value.

use vstd::prelude::*;
use crate::insn::Insn;
use crate::opcode::{
    Class, class_of, BPF_ADD, BPF_ARSH, BPF_DIV, BPF_END, BPF_LSH, BPF_MOD, BPF_MUL, BPF_RSH,
    BPF_SUB, BPF_EXIT, BPF_MOV,
};
use vstd::wrapping::{i32_specs, i64_specs, u32_specs, u64_specs};
use crate::alu::{VmError, alu_value_spec, alu32_spec, alu64_spec, op_of, source_is_reg};
use crate::vm::{
    FRAME_PTR, NUM_REGS, alu_step_spec, entry_regs, reg_spec, run_spec, set_reg_spec,
};

verus! {

/// The register accessors split every index into exactly one of three
/// outcomes: a general register (`r0`..`r9`) is written and reads back the
/// value written, with every other register unchanged; the frame pointer
/// `r10` refuses the write and keeps its value; any other index is refused
/// by both accessors.
pub proof fn lemma_register_file_trichotomy(regs: Seq<u64>, i: usize, v: u64)
    requires
        regs.len() == NUM_REGS,
    ensures
        i < FRAME_PTR ==> {
            let (next, r) = set_reg_spec(regs, i, v);
            &&& r == Ok::<(), VmError>(())
            &&& reg_spec(next, i) == Ok::<u64, VmError>(v)
            &&& forall|j: usize| j != i ==> #[trigger] reg_spec(next, j) == reg_spec(regs, j)
        },
        i == FRAME_PTR ==> {
            &&& set_reg_spec(regs, i, v) == (regs, Err::<(), VmError>(VmError::WriteToFramePointer))
            &&& reg_spec(regs, i) == Ok::<u64, VmError>(regs[FRAME_PTR as int])
        },
        i >= NUM_REGS ==> {
            &&& set_reg_spec(regs, i, v) == (regs, Err::<(), VmError>(VmError::BadRegister(i)))
            &&& reg_spec(regs, i) == Err::<u64, VmError>(VmError::BadRegister(i))
        },
{
}

/// An arithmetic instruction never changes the frame pointer, nor the size
/// of the register file.
pub proof fn lemma_alu_step_keeps_frame_pointer(insn: Insn, regs: Seq<u64>, host_little_endian: bool)
    requires
        regs.len() == NUM_REGS,
    ensures
        alu_step_spec(insn, regs, host_little_endian) matches Ok(next) ==> next.len() == NUM_REGS
            && next[FRAME_PTR as int] == regs[FRAME_PTR as int],
{
}

/// Running a program never changes the frame pointer, nor the size of the
/// register file.
pub proof fn lemma_run_keeps_frame_pointer(regs: Seq<u64>, prog: Seq<Insn>, pc: nat, host_little_endian: bool)
    requires
        regs.len() == NUM_REGS,
    ensures
        run_spec(regs, prog, pc, host_little_endian).0.len() == NUM_REGS,
        run_spec(regs, prog, pc, host_little_endian).0[FRAME_PTR as int] == regs[FRAME_PTR as int],
    decreases prog.len() - pc,
{
    if pc < prog.len() {
        let insn = prog[pc as int];
        lemma_alu_step_keeps_frame_pointer(insn, regs, host_little_endian);
        if let Ok(next) = alu_step_spec(insn, regs, host_little_endian) {
            lemma_run_keeps_frame_pointer(next, prog, pc + 1, host_little_endian);
        }
    }
}

/// Every 32-bit (ALU class) operation but the byte-order conversion writes
/// a zero-extended value: the upper half of the destination becomes zero,
/// whatever it held.
pub proof fn lemma_alu32_zero_extends(insn: Insn, dst: u64, src: u64, host_little_endian: bool)
    requires
        class_of(insn.opcode) == Class::Alu,
        op_of(insn.opcode) != BPF_END,
    ensures
        alu_value_spec(insn, dst, src, host_little_endian) matches Ok(Some(v)) ==> v < 0x1_0000_0000,
{
}

/// Division by zero gives zero. Remainder by zero leaves a 64-bit
/// destination as it is, and gives the destination's low half (zero-
/// extended) in the 32-bit class. Both hold for the signed forms too.
pub proof fn lemma_division_by_zero(insn: Insn, dst: u64, host_little_endian: bool)
    requires
        class_of(insn.opcode) == Class::Alu || class_of(insn.opcode) == Class::Alu64,
    ensures
        op_of(insn.opcode) == BPF_DIV ==> alu_value_spec(insn, dst, 0, host_little_endian) == Ok::<Option<u64>, VmError>(Some(0)),
        op_of(insn.opcode) == BPF_MOD && class_of(insn.opcode) == Class::Alu64 ==> alu_value_spec(insn, dst, 0, host_little_endian)
            == Ok::<Option<u64>, VmError>(None),
        op_of(insn.opcode) == BPF_MOD && class_of(insn.opcode) == Class::Alu ==> alu_value_spec(insn, dst, 0, host_little_endian)
            == Ok::<Option<u64>, VmError>(Some(dst % 0x1_0000_0000)),
{
    assert(0u64 as i64 == 0);
    assert(0u32 as i32 == 0);
    assert((dst as u32) as u64 == dst % 0x1_0000_0000) by (bit_vector);
}

/// The wrapping operations agree with Rust's native wrapping arithmetic
/// on `u64` / `u32` (and, for the arithmetic shift, `i64` / `i32`), shift
/// counts being masked to 6 (64-bit) or 5 (32-bit) bits.
pub proof fn lemma_alu_matches_native(offset: i16, dst: u64, src: u64, d: u32, s: u32)
    ensures
        alu64_spec(BPF_ADD, offset, dst, src) == Some(Some(u64_specs::wrapping_add(dst, src))),
        alu64_spec(BPF_SUB, offset, dst, src) == Some(Some(u64_specs::wrapping_sub(dst, src))),
        alu64_spec(BPF_MUL, offset, dst, src) == Some(Some(u64_specs::wrapping_mul(dst, src))),
        alu64_spec(BPF_LSH, offset, dst, src) == Some(Some(u64_specs::wrapping_shl(dst, (src & 63) as u32))),
        alu64_spec(BPF_RSH, offset, dst, src) == Some(Some(u64_specs::wrapping_shr(dst, (src & 63) as u32))),
        alu64_spec(BPF_ARSH, offset, dst, src) == Some(Some(i64_specs::wrapping_shr(dst as i64, (src & 63) as u32) as u64)),
        alu32_spec(BPF_ADD, offset, d, s) == Some(u32_specs::wrapping_add(d, s)),
        alu32_spec(BPF_SUB, offset, d, s) == Some(u32_specs::wrapping_sub(d, s)),
        alu32_spec(BPF_MUL, offset, d, s) == Some(u32_specs::wrapping_mul(d, s)),
        alu32_spec(BPF_LSH, offset, d, s) == Some(u32_specs::wrapping_shl(d, s & 31)),
        alu32_spec(BPF_RSH, offset, d, s) == Some(u32_specs::wrapping_shr(d, s & 31)),
        alu32_spec(BPF_ARSH, offset, d, s) == Some(i32_specs::wrapping_shr(d as i32, s & 31) as u32),
{
    assert(src & 63 == src % 64) by (bit_vector);
    assert(s & 31 == s % 32) by (bit_vector);
    assert(((src & 63) as u32) % 64 == (src % 64) as u32);
    assert((s & 31) % 32 == s % 32);
}


/// An `EXIT` instruction (class JMP, operation `EXIT`) ends the run with
/// the current value of `r0`, leaving the registers as they are.
pub proof fn lemma_exit_returns_r0(regs: Seq<u64>, prog: Seq<Insn>, pc: nat, host_little_endian: bool)
    requires
        regs.len() == NUM_REGS,
        pc < prog.len(),
        class_of(prog[pc as int].opcode) == Class::Jmp,
        op_of(prog[pc as int].opcode) == BPF_EXIT,
    ensures
        run_spec(regs, prog, pc, host_little_endian) == (regs, Ok::<u64, VmError>(regs[0])),
{
}

/// Running past the last instruction is `NoExit`; an instruction that is
/// neither arithmetic nor `EXIT` stops the run as unimplemented. Either
/// way the registers are left as they are.
pub proof fn lemma_run_stops(regs: Seq<u64>, prog: Seq<Insn>, pc: nat, host_little_endian: bool)
    ensures
        pc >= prog.len() ==> run_spec(regs, prog, pc, host_little_endian) == (regs, Err::<u64, VmError>(
            VmError::NoExit,
        )),
        pc < prog.len() && class_of(prog[pc as int].opcode) != Class::Alu && class_of(
            prog[pc as int].opcode,
        ) != Class::Alu64 && !(class_of(prog[pc as int].opcode) == Class::Jmp && op_of(
            prog[pc as int].opcode,
        ) == BPF_EXIT) ==> run_spec(regs, prog, pc, host_little_endian) == (regs, Err::<u64, VmError>(
            VmError::Unimplemented(prog[pc as int].opcode),
        )),
{
}

/// `r0 = c; exit` on the entry register file returns `c`: the immediate
/// sign-extended by the 64-bit move (opcode `0xb7`), zero-extended from 32
/// bits by the 32-bit move (opcode `0xb4`).
pub proof fn lemma_move_then_exit(mov: Insn, exit: Insn, host_little_endian: bool)
    requires
        mov.opcode == 0xb7 || mov.opcode == 0xb4,
        mov.dst == 0,
        mov.offset == 0,
        class_of(exit.opcode) == Class::Jmp,
        op_of(exit.opcode) == BPF_EXIT,
    ensures
        run_spec(entry_regs(), seq![mov, exit], 0, host_little_endian).1 == Ok::<u64, VmError>(
            if mov.opcode == 0xb7 {
                (mov.imm as i64) as u64
            } else {
                (mov.imm as u32) as u64
            },
        ),
{
    let prog = seq![mov, exit];
    let regs = entry_regs();
    assert(prog[0] == mov && prog[1] == exit);
    let next = alu_step_spec(mov, regs, host_little_endian).unwrap();
    assert(next == regs.update(0, if mov.opcode == 0xb7 { (mov.imm as i64) as u64 } else { (mov.imm as u32) as u64 }));
    lemma_exit_returns_r0(next, prog, 1, host_little_endian);
}

/// A register-to-register move (`MOV` with the register source and offset
/// 0) into a general register copies the source register (all 64 bits in
/// the 64-bit class, its low half zero-extended in the 32-bit class) and
/// leaves every other register as it was.
pub proof fn lemma_register_move(insn: Insn, regs: Seq<u64>, host_little_endian: bool)
    requires
        regs.len() == NUM_REGS,
        class_of(insn.opcode) == Class::Alu || class_of(insn.opcode) == Class::Alu64,
        op_of(insn.opcode) == BPF_MOV,
        source_is_reg(insn.opcode),
        insn.offset == 0,
        insn.dst < FRAME_PTR,
        insn.src < NUM_REGS,
    ensures
        alu_step_spec(insn, regs, host_little_endian) == Ok::<Seq<u64>, VmError>(
            regs.update(
                insn.dst as int,
                if class_of(insn.opcode) == Class::Alu64 {
                    regs[insn.src as int]
                } else {
                    regs[insn.src as int] % 0x1_0000_0000
                },
            ),
        ),
{
    let v = regs[insn.src as int];
    assert((v as u32) as u64 == v % 0x1_0000_0000) by (bit_vector);
}

} // verus!
