//! Decoded instructions and the decoder from the raw byte stream.
//!
//! A program is a sequence of 8-byte slots. Every instruction occupies one
//! slot, except the wide 64-bit immediate load, which occupies two: the low
//! 32 bits of its constant sit in the first slot's immediate field and the
//! high 32 bits in the second slot's immediate field.

use vstd::prelude::*;
use crate::opcode::{Class, BPF_LD_IMM_DW, class_of};

verus! {

#[derive(Debug, Clone, Copy, PartialEq, Eq, Structural)]
pub struct Insn {
    /// Index of the instruction's first slot in the stream.
    pub slot: usize,
    pub opcode: u8,
    pub src: u8,
    pub dst: u8,
    pub offset: i16,
    pub imm: i32,
    /// The 64-bit constant of a wide load; `None` for every other instruction.
    pub imm64: Option<i64>,
    /// Number of 8-byte slots the instruction occupies (1 or 2).
    pub slots: usize,
}

impl Insn {
    pub fn class(&self) -> (c: Class)
        ensures
            c == class_of(self.opcode),
    {
        Class::from_opcode(self.opcode)
    }
}

#[derive(Debug, Clone, Copy, PartialEq, Eq, Structural)]
pub enum DecoderError {
    /// The stream length (carried) is not a multiple of 8.
    NotSlotAligned(usize),
    /// A wide load starts in the slot carried but its second slot is missing.
    TruncatedWideLoad(usize),
}

/// The unsigned value of two little-endian bytes.
pub open spec fn le16(b0: u8, b1: u8) -> u16 {
    (b0 as int + 0x100 * b1 as int) as u16
}

/// The unsigned value of four little-endian bytes.
pub open spec fn le32(b0: u8, b1: u8, b2: u8, b3: u8) -> u32 {
    (b0 as int + 0x100 * b1 as int + 0x1_0000 * b2 as int + 0x100_0000 * b3 as int) as u32
}

/// The unsigned value of the four little-endian bytes of `code` at `i`.
pub open spec fn le32_at(code: Seq<u8>, i: int) -> u32 {
    le32(code[i], code[i + 1], code[i + 2], code[i + 3])
}

/// The instruction whose first slot starts at byte `i` of `code`; `wide`
/// says whether it is a wide load (whose second slot then follows).
pub open spec fn insn_at(code: Seq<u8>, i: int, wide: bool) -> Insn {
    Insn {
        slot: (i / 8) as usize,
        opcode: code[i],
        src: code[i + 1] / 16,
        dst: code[i + 1] % 16,
        offset: le16(code[i + 2], code[i + 3]) as i16,
        imm: le32_at(code, i + 4) as i32,
        imm64: if wide {
            Some((le32_at(code, i + 4) as int + 0x1_0000_0000 * le32_at(code, i + 12) as int) as u64 as i64)
        } else {
            None
        },
        slots: if wide { 2 } else { 1 },
    }
}

/// Puts `prefix` in front of a decoding outcome.
pub open spec fn prepend(prefix: Seq<Insn>, r: Result<Seq<Insn>, DecoderError>) -> Result<Seq<Insn>, DecoderError> {
    match r {
        Ok(rest) => Ok(prefix + rest),
        Err(e) => Err(e),
    }
}

/// Decoding of `code` from byte `i` on, scanning slot by slot: the first
/// wide load whose second slot is missing is the error.
pub open spec fn decode_from(code: Seq<u8>, i: int) -> Result<Seq<Insn>, DecoderError>
    decreases code.len() - i,
{
    if i < 0 || i + 8 > code.len() {
        Ok(Seq::empty())
    } else if code[i] == BPF_LD_IMM_DW {
        if i + 16 > code.len() {
            Err(DecoderError::TruncatedWideLoad((i / 8) as usize))
        } else {
            prepend(seq![insn_at(code, i, true)], decode_from(code, i + 16))
        }
    } else {
        prepend(seq![insn_at(code, i, false)], decode_from(code, i + 8))
    }
}

/// What decoding the whole stream `code` yields.
pub open spec fn decode_spec(code: Seq<u8>) -> Result<Seq<Insn>, DecoderError> {
    if code.len() % 8 != 0 {
        Err(DecoderError::NotSlotAligned(code.len() as usize))
    } else {
        decode_from(code, 0)
    }
}

proof fn lemma_prepend_prepend(a: Seq<Insn>, b: Seq<Insn>, r: Result<Seq<Insn>, DecoderError>)
    ensures
        prepend(a, prepend(b, r)) == prepend(a + b, r),
{
    if let Ok(rest) = r {
        assert(a + (b + rest) =~= (a + b) + rest);
    }
}

/// Reads the instruction starting at byte `i`.
fn read_insn(code: &[u8], i: usize, wide: bool) -> (ins: Insn)
    requires
        i + (if wide { 16int } else { 8int }) <= code.len(),
    ensures
        ins == insn_at(code@, i as int, wide),
{
    let regs = code[i + 1];
    let dst = regs & 0x0f;
    let src = regs >> 4;
    assert(regs & 0x0f == regs % 16 && regs >> 4 == regs / 16) by (bit_vector);
    let offset_bits: u16 = code[i + 2] as u16 + 0x100 * (code[i + 3] as u16);
    let low: u32 = code[i + 4] as u32 + 0x100 * (code[i + 5] as u32) + 0x1_0000 * (code[i + 6] as u32)
        + 0x100_0000 * (code[i + 7] as u32);
    let imm64 = if wide {
        let high: u32 = code[i + 12] as u32 + 0x100 * (code[i + 13] as u32) + 0x1_0000 * (
        code[i + 14] as u32) + 0x100_0000 * (code[i + 15] as u32);
        let value: u64 = low as u64 + 0x1_0000_0000 * (high as u64);
        Some(#[verifier::truncate] (value as i64))
    } else {
        None
    };
    Insn {
        slot: i / 8,
        opcode: code[i],
        src,
        dst,
        offset: #[verifier::truncate] (offset_bits as i16),
        imm: #[verifier::truncate] (low as i32),
        imm64,
        slots: if wide { 2 } else { 1 },
    }
}

/// Decodes a byte stream into its instructions.
///
/// Fails with `NotSlotAligned` when the length is not a multiple of 8, and
/// with `TruncatedWideLoad` at the first wide load whose second slot is
/// missing; otherwise yields every instruction in stream order.
pub fn decode(code: &[u8]) -> (r: Result<Vec<Insn>, DecoderError>)
    ensures
        r matches Ok(v) ==> decode_spec(code@) == Ok::<Seq<Insn>, DecoderError>(v@),
        r matches Err(e) ==> decode_spec(code@) == Err::<Seq<Insn>, DecoderError>(e),
{
    if code.len() % 8 != 0 {
        return Err(DecoderError::NotSlotAligned(code.len()));
    }
    let mut out: Vec<Insn> = Vec::new();
    let mut i: usize = 0;
    while i < code.len()
        invariant
            i % 8 == 0,
            code@.len() % 8 == 0,
            i <= code@.len(),
            decode_from(code@, 0) == prepend(out@, decode_from(code@, i as int)),
        decreases code@.len() - i,
    {
        if code[i] == BPF_LD_IMM_DW {
            if code.len() - i < 16 {
                return Err(DecoderError::TruncatedWideLoad(i / 8));
            }
            let ins = read_insn(code, i, true);
            proof {
                assert(decode_from(code@, i as int) == prepend(
                    seq![ins],
                    decode_from(code@, i + 16),
                ));
                lemma_prepend_prepend(out@, seq![ins], decode_from(code@, i + 16));
                assert(out@ + seq![ins] =~= out@.push(ins));
            }
            out.push(ins);
            i = i + 16;
        } else {
            let ins = read_insn(code, i, false);
            proof {
                assert(decode_from(code@, i as int) == prepend(
                    seq![ins],
                    decode_from(code@, i + 8),
                ));
                lemma_prepend_prepend(out@, seq![ins], decode_from(code@, i + 8));
                assert(out@ + seq![ins] =~= out@.push(ins));
            }
            out.push(ins);
            i = i + 8;
        }
    }
    proof {
        assert(out@ + Seq::<Insn>::empty() =~= out@);
    }
    Ok(out)
}

} // verus!
