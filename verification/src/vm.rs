//! The eBPF virtual machine state; the interpreter, the register file and the stack frame.

use vstd::prelude::*;
use vstd::endian::endianness;
use crate::insn::Insn;
use crate::opcode::{
    Class, class_of, BPF_END, BPF_EXIT, BPF_MOV, BPF_NEG, BPF_OP_MASK, BPF_SRC_MASK,
};
use crate::alu::{
    VmError, alu32_op, alu64_op, alu_value_spec, byteswap, op_of, process_endian, sign_extend,
    source_is_reg, lemma_opcode_fields,
};

verus! {

pub const NUM_REGS: usize = 11;

pub const FRAME_PTR: usize = 10;

pub const STACK_SIZE: u64 = 512;

/// The virtual base address of the stack region.
pub const STACK_BASE: u64 = 0x2_0000_0000;

/// r10 points one byte past the top of the stack.
pub const FRAME_TOP: u64 = STACK_BASE + STACK_SIZE;

/// The register file at program entry: every register zero but the frame
/// pointer, which holds `FRAME_TOP`.
pub open spec fn entry_regs() -> Seq<u64> {
    Seq::new(NUM_REGS as nat, |i: int| if i == FRAME_PTR { FRAME_TOP } else { 0u64 })
}

/// Reading register `i` of the register file `regs`.
pub open spec fn reg_spec(regs: Seq<u64>, i: usize) -> Result<u64, VmError> {
    if i < NUM_REGS {
        Ok(regs[i as int])
    } else {
        Err(VmError::BadRegister(i))
    }
}

/// Writing `val` to register `i`: the new register file and the outcome.
/// Only the general registers `r0`..`r9` are writable.
pub open spec fn set_reg_spec(regs: Seq<u64>, i: usize, val: u64) -> (Seq<u64>, Result<(), VmError>) {
    if i >= NUM_REGS {
        (regs, Err(VmError::BadRegister(i)))
    } else if i == FRAME_PTR {
        (regs, Err(VmError::WriteToFramePointer))
    } else {
        (regs.update(i as int, val), Ok(()))
    }
}

/// The source operand of an arithmetic instruction: a register, or the
/// immediate, sign-extended to 64 bits for ALU64 and zero-extended from 32
/// bits for ALU.
pub open spec fn operand_spec(insn: Insn, regs: Seq<u64>) -> Result<u64, VmError> {
    if source_is_reg(insn.opcode) {
        reg_spec(regs, insn.src as usize)
    } else if class_of(insn.opcode) == Class::Alu64 {
        Ok((insn.imm as i64) as u64)
    } else {
        Ok((insn.imm as u32) as u64)
    }
}

/// One arithmetic instruction on the register file `regs`: the destination
/// is read, then the source operand, then the value is computed and written
/// back to the destination (unless the operation leaves it as it is), on a
/// host whose byte order `host_little_endian` gives.
pub open spec fn alu_step_spec(insn: Insn, regs: Seq<u64>, host_little_endian: bool) -> Result<Seq<u64>, VmError> {
    match reg_spec(regs, insn.dst as usize) {
        Err(e) => Err(e),
        Ok(dst) => match operand_spec(insn, regs) {
            Err(e) => Err(e),
            Ok(src) => match alu_value_spec(insn, dst, src, host_little_endian) {
                Err(e) => Err(e),
                Ok(None) => Ok(regs),
                Ok(Some(v)) => {
                    let (next, r) = set_reg_spec(regs, insn.dst as usize, v);
                    match r {
                        Ok(_) => Ok(next),
                        Err(e) => Err(e),
                    }
                },
            },
        },
    }
}

/// Running `prog` from instruction `pc` on the register file `regs`: the
/// final register file and the outcome. Arithmetic instructions run in
/// order; `EXIT` returns `r0`; any other instruction is unimplemented;
/// running past the end is `NoExit`. A failing instruction leaves the
/// register file as it was before it.
pub open spec fn run_spec(regs: Seq<u64>, prog: Seq<Insn>, pc: nat, host_little_endian: bool) -> (
    Seq<u64>,
    Result<u64, VmError>,
)
    decreases prog.len() - pc,
{
    if pc >= prog.len() {
        (regs, Err(VmError::NoExit))
    } else {
        let insn = prog[pc as int];
        let class = class_of(insn.opcode);
        if class == Class::Alu || class == Class::Alu64 {
            match alu_step_spec(insn, regs, host_little_endian) {
                Ok(next) => run_spec(next, prog, pc + 1, host_little_endian),
                Err(e) => (regs, Err(e)),
            }
        } else if class == Class::Jmp && op_of(insn.opcode) == BPF_EXIT {
            (regs, reg_spec(regs, 0))
        } else {
            (regs, Err(VmError::Unimplemented(insn.opcode)))
        }
    }
}

/// The in-memory bytes of the `u16` value 1 in the byte order of the
/// hardware running the program (`u16::to_ne_bytes`): `[1, 0]` on a
/// little-endian machine, `[0, 1]` on a big-endian one.
#[verifier::external_body]
fn native_bytes_of_one() -> (r: [u8; 2])
    ensures
        r@ == (if endianness() is Little {
            seq![1u8, 0u8]
        } else {
            seq![0u8, 1u8]
        }),
{
    1u16.to_ne_bytes()
}

pub struct Vm {
    regs: [u64; NUM_REGS],
    #[allow(dead_code)]
    stack: Box<[u8; 512]>,
    /// The host's byte order, read once at construction.
    host_le: bool,
}

impl View for Vm {
    type V = Seq<u64>;

    /// The register file `r0`..`r10`.
    closed spec fn view(&self) -> Seq<u64> {
        self.regs@
    }
}

impl Vm {
    /// Whether the host the VM runs on is little endian, as recorded when
    /// the VM was made.
    pub closed spec fn host_little_endian(&self) -> bool {
        self.host_le
    }

    /// The frame pointer always holds `FRAME_TOP`.
    #[verifier::type_invariant]
    closed spec fn inv(self) -> bool {
        &&& self.regs@.len() == NUM_REGS
        &&& self.regs@[FRAME_PTR as int] == FRAME_TOP
    }

    /// Construct a VM in its program-entry state.
    pub fn new() -> (vm: Vm)
        ensures
            vm@ == entry_regs(),
            vm.host_little_endian() == (endianness() is Little),
    {
        let mut regs = [0u64; NUM_REGS];
        regs[FRAME_PTR] = FRAME_TOP;
        let probe = native_bytes_of_one();
        let host_le = probe[0] == 1;
        let vm = Vm { regs, stack: Box::new([0u8; 512]), host_le };
        assert(vm@ =~= entry_regs());
        vm
    }

    pub fn reg(&self, i: usize) -> (r: Result<u64, VmError>)
        ensures
            r == reg_spec(self@, i),
            self@.len() == NUM_REGS,
            self@[FRAME_PTR as int] == FRAME_TOP,
    {
        proof {
            use_type_invariant(self);
        }
        if i >= NUM_REGS {
            return Err(VmError::BadRegister(i));
        }
        Ok(self.regs[i])
    }

    pub fn set_reg(&mut self, i: usize, val: u64) -> (r: Result<(), VmError>)
        ensures
            (final(self)@, r) == set_reg_spec(old(self)@, i, val),
            final(self).host_little_endian() == old(self).host_little_endian(),
            old(self)@.len() == NUM_REGS,
            final(self)@.len() == NUM_REGS,
            final(self)@[FRAME_PTR as int] == FRAME_TOP,
    {
        proof {
            use_type_invariant(&*self);
        }
        if i >= NUM_REGS {
            return Err(VmError::BadRegister(i));
        }
        if i == FRAME_PTR {
            return Err(VmError::WriteToFramePointer);
        }
        self.regs[i] = val;
        Ok(())
    }

    /// Execute a decoded program until EXIT, returning r0.
    pub fn run(&mut self, prog: &[Insn]) -> (r: Result<u64, VmError>)
        ensures
            (final(self)@, r) == run_spec(old(self)@, prog@, 0, old(self).host_little_endian()),
            final(self).host_little_endian() == old(self).host_little_endian(),
            old(self)@.len() == NUM_REGS,
    {
        proof {
            use_type_invariant(&*self);
        }
        let mut pc: usize = 0;
        loop
            invariant
                pc <= prog@.len(),
                self.host_little_endian() == old(self).host_little_endian(),
                run_spec(old(self)@, prog@, 0, self.host_little_endian()) == run_spec(
                    self@,
                    prog@,
                    pc as nat,
                    self.host_little_endian(),
                ),
            decreases prog@.len() - pc,
        {
            if pc >= prog.len() {
                return Err(VmError::NoExit);
            }
            let insn = &prog[pc];
            let class = insn.class();
            let op = insn.opcode & BPF_OP_MASK;
            proof {
                lemma_opcode_fields(insn.opcode);
            }
            if class == Class::Alu || class == Class::Alu64 {
                self.exec_alu(insn)?;
                pc = pc + 1;
            } else if class == Class::Jmp && op == BPF_EXIT {
                return self.reg(0);
            } else {
                return Err(VmError::Unimplemented(insn.opcode));
            }
        }
    }

    /// Execute one arithmetic instruction (of class ALU or ALU64).
    pub fn exec_alu(&mut self, insn: &Insn) -> (r: Result<(), VmError>)
        ensures
            match alu_step_spec(*insn, old(self)@, old(self).host_little_endian()) {
                Ok(next) => r == Ok::<(), VmError>(()) && final(self)@ == next,
                Err(e) => r == Err::<(), VmError>(e) && final(self)@ == old(self)@,
            },
            final(self).host_little_endian() == old(self).host_little_endian(),
            old(self)@.len() == NUM_REGS,
    {
        proof {
            use_type_invariant(&*self);
        }
        let is64 = insn.class() == Class::Alu64;
        let op = insn.opcode & BPF_OP_MASK;
        let is_x = (insn.opcode & BPF_SRC_MASK) != 0;
        proof {
            lemma_opcode_fields(insn.opcode);
        }
        let dst_i = insn.dst as usize;
        let dst = self.reg(dst_i)?;

        let src = if is_x {
            self.reg(insn.src as usize)?
        } else if is64 {
            // ALU64 K: sign-extend imm 32 -> 64
            #[verifier::truncate] ((insn.imm as i64) as u64)
        } else {
            // ALU K: imm as unsigned 32
            (#[verifier::truncate] (insn.imm as u32)) as u64
        };

        // Byte swap
        if op == BPF_END {
            let w = insn.imm;
            let res = if !is64 {
                process_endian(dst, w, is_x, self.host_le)?
            } else {
                byteswap(dst, w)?
            };
            return self.set_reg(dst_i, res);
        }

        // NEG is unary.
        if op == BPF_NEG {
            let res = if is64 {
                0u64.wrapping_sub(dst)
            } else {
                (0u32.wrapping_sub(#[verifier::truncate] (dst as u32))) as u64
            };
            return self.set_reg(dst_i, res);
        }

        // MOVSX: MOV with non-zero offset sign-extend the source's low `offset` bits.
        if op == BPF_MOV && insn.offset != 0 {
            let sx = sign_extend(src, insn.offset)?;
            let res = if is64 {
                #[verifier::truncate] (sx as u64)
            } else {
                (#[verifier::truncate] (sx as u32)) as u64
            };
            return self.set_reg(dst_i, res);
        }

        if is64 {
            match alu64_op(op, insn.offset, dst, src) {
                Some(Some(res)) => self.set_reg(dst_i, res),
                Some(None) => Ok(()),
                None => Err(VmError::Unimplemented(insn.opcode)),
            }
        } else {
            match alu32_op(op, insn.offset, #[verifier::truncate] (dst as u32), #[verifier::truncate] (src as u32)) {
                // zero-extend 32-bit results into the 64-bit register.
                Some(res32) => self.set_reg(dst_i, res32 as u64),
                None => Err(VmError::Unimplemented(insn.opcode)),
            }
        }
    }
}

impl Default for Vm {
    fn default() -> (vm: Self)
        ensures
            vm@ == entry_regs(),
            vm.host_little_endian() == (endianness() is Little),
    {
        Vm::new()
    }
}

} // verus!
