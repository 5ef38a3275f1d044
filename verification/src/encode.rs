//! Encoding of decoded instructions back into their byte form.
//!
//! This is the inverse of `decode`, defined on the space of well-formed
//! `Insn` values (see `crate::stream_laws`).

use vstd::prelude::*;
use crate::insn::Insn;
use crate::opcode::BPF_LD_IMM_DW;

verus! {

/// The register byte: source register in the high nibble, destination
/// register in the low nibble (each taken modulo 16).
pub open spec fn regs_byte(src: u8, dst: u8) -> u8 {
    ((src % 16) * 16 + dst % 16) as u8
}

/// The two little-endian bytes of `x`.
pub open spec fn le_bytes16(x: u16) -> Seq<u8> {
    seq![(x % 0x100) as u8, (x / 0x100) as u8]
}

/// The four little-endian bytes of `x`.
pub open spec fn le_bytes32(x: u32) -> Seq<u8> {
    seq![
        (x % 0x100) as u8,
        ((x / 0x100) % 0x100) as u8,
        ((x / 0x1_0000) % 0x100) as u8,
        (x / 0x100_0000) as u8,
    ]
}

/// The bytes of one instruction: a wide load (`imm64` is `Some`) takes 16
/// bytes, with the wide-load opcode, the low 32 bits of the constant in the
/// first slot's immediate, and a second slot whose opcode, register and
/// offset bytes are zero and whose immediate holds the high 32 bits; every
/// other instruction takes 8 bytes.
pub open spec fn encode_insn_spec(ins: Insn) -> Seq<u8> {
    match ins.imm64 {
        Some(v) => seq![BPF_LD_IMM_DW, regs_byte(ins.src, ins.dst)] + le_bytes16(ins.offset as u16)
            + le_bytes32(((v as u64) % 0x1_0000_0000) as u32) + seq![0u8, 0u8, 0u8, 0u8]
            + le_bytes32(((v as u64) / 0x1_0000_0000) as u32),
        None => seq![ins.opcode, regs_byte(ins.src, ins.dst)] + le_bytes16(ins.offset as u16)
            + le_bytes32(ins.imm as u32),
    }
}

/// The concatenation of the encodings of `prog`, in order.
pub open spec fn encode_program_spec(prog: Seq<Insn>) -> Seq<u8>
    decreases prog.len(),
{
    if prog.len() == 0 {
        Seq::empty()
    } else {
        encode_insn_spec(prog[0]) + encode_program_spec(prog.drop_first())
    }
}

/// Encoding one more instruction appends its bytes.
pub proof fn lemma_encode_program_push(prog: Seq<Insn>, ins: Insn)
    ensures
        encode_program_spec(prog.push(ins)) == encode_program_spec(prog) + encode_insn_spec(ins),
    decreases prog.len(),
{
    if prog.len() == 0 {
        assert(prog.push(ins).drop_first() =~= Seq::<Insn>::empty());
        assert(prog.push(ins)[0] == ins);
        assert(encode_program_spec(prog) == Seq::<u8>::empty());
        assert(encode_program_spec(prog.push(ins).drop_first()) == Seq::<u8>::empty());
        assert(encode_insn_spec(ins) + Seq::<u8>::empty() =~= Seq::<u8>::empty() + encode_insn_spec(ins));
    } else {
        assert(prog.push(ins).drop_first() =~= prog.drop_first().push(ins));
        assert(prog.push(ins)[0] == prog[0]);
        lemma_encode_program_push(prog.drop_first(), ins);
        assert(encode_insn_spec(prog[0]) + (encode_program_spec(prog.drop_first()) + encode_insn_spec(ins))
            =~= (encode_insn_spec(prog[0]) + encode_program_spec(prog.drop_first())) + encode_insn_spec(ins));
    }
}

fn push_le16(out: &mut Vec<u8>, x: u16)
    ensures
        final(out)@ == old(out)@ + le_bytes16(x),
{
    out.push((x % 0x100) as u8);
    out.push((x / 0x100) as u8);
    assert(final(out)@ =~= old(out)@ + le_bytes16(x));
}

fn push_le32(out: &mut Vec<u8>, x: u32)
    ensures
        final(out)@ == old(out)@ + le_bytes32(x),
{
    out.push((x % 0x100) as u8);
    out.push(((x / 0x100) % 0x100) as u8);
    out.push(((x / 0x1_0000) % 0x100) as u8);
    out.push((x / 0x100_0000) as u8);
    assert(final(out)@ =~= old(out)@ + le_bytes32(x));
}

/// Encode one decoded instruction back into its 8 or 16 bytes.
///
/// Every instruction produces 8 bytes, except a wide load instruction
/// with 16 bytes and identified by `imm64.is_some()`.
pub fn encode_insn(ins: &Insn) -> (out: Vec<u8>)
    ensures
        out@ == encode_insn_spec(*ins),
        out@.len() == if ins.imm64.is_some() { 16int } else { 8int },
{
    let mut out: Vec<u8> = Vec::new();
    let src = ins.src;
    let dst = ins.dst;
    let regs = (src << 4u8) | (dst & 0x0f);
    proof {
        lemma_regs_bits(src, dst);
    }
    let offset = #[verifier::truncate] (ins.offset as u16);
    match ins.imm64 {
        Some(value) => {
            // first slot; opcode is wide-load, its imm holds the low 32 bits of imm64
            let bits = #[verifier::truncate] (value as u64);
            let low = (bits % 0x1_0000_0000) as u32;
            out.push(BPF_LD_IMM_DW);
            out.push(regs);
            push_le16(&mut out, offset);
            push_le32(&mut out, low);
            // second slot; opcode, regs, offset all zeroed out, imm holds the high 32
            // bits of imm64
            let high = (bits / 0x1_0000_0000) as u32;
            out.push(0);
            out.push(0);
            push_le16(&mut out, 0);
            push_le32(&mut out, high);
            proof {
                assert(le_bytes16(0) =~= seq![0u8, 0u8]);
            }
        },
        None => {
            out.push(ins.opcode);
            out.push(regs);
            push_le16(&mut out, offset);
            push_le32(&mut out, #[verifier::truncate] (ins.imm as u32));
        },
    }
    assert(out@ =~= encode_insn_spec(*ins));
    out
}

/// Encode a whole program by concatenating the encoding of each instruction.
pub fn encode_program(prog: &Vec<Insn>) -> (out: Vec<u8>)
    ensures
        out@ == encode_program_spec(prog@),
{
    let mut out: Vec<u8> = Vec::new();
    let mut k: usize = 0;
    while k < prog.len()
        invariant
            k <= prog@.len(),
            out@ == encode_program_spec(prog@.take(k as int)),
        decreases prog@.len() - k,
    {
        let mut bytes = encode_insn(&prog[k]);
        proof {
            lemma_encode_program_push(prog@.take(k as int), prog@[k as int]);
            assert(prog@.take(k as int).push(prog@[k as int]) =~= prog@.take(k + 1));
        }
        out.append(&mut bytes);
        k = k + 1;
    }
    assert(prog@.take(k as int) =~= prog@);
    out
}


/// The two little-endian bytes of `x`, taken with masks and shifts
/// (`u16::to_le_bytes`).
pub open spec fn le_bytes16_bits(x: u16) -> Seq<u8> {
    seq![(x & 0xff) as u8, (x >> 8u16) as u8]
}

/// The four little-endian bytes of `x`, taken with masks and shifts
/// (`u32::to_le_bytes`).
pub open spec fn le_bytes32_bits(x: u32) -> Seq<u8> {
    seq![(x & 0xffu32) as u8, ((x >> 8u32) & 0xffu32) as u8, ((x >> 16u32) & 0xffu32) as u8, (x >> 24u32) as u8]
}

proof fn lemma_bytes16_bits(x: u16)
    by (bit_vector)
    ensures
        (x % 0x100) as u8 == (x & 0xff) as u8,
        (x / 0x100) as u8 == (x >> 8u16) as u8,
{
}

proof fn lemma_bytes32_bits_0(x: u32)
    by (bit_vector)
    ensures
        (x % 0x100u32) as u8 == (x & 0xffu32) as u8,
{
}

proof fn lemma_bytes32_bits_1(x: u32)
    by (bit_vector)
    ensures
        ((x / 0x100u32) % 0x100u32) as u8 == ((x >> 8u32) & 0xffu32) as u8,
{
}

proof fn lemma_bytes32_bits_2(x: u32)
    by (bit_vector)
    ensures
        ((x / 0x1_0000u32) % 0x100u32) as u8 == ((x >> 16u32) & 0xffu32) as u8,
{
}

proof fn lemma_bytes32_bits_3(x: u32)
    by (bit_vector)
    ensures
        (x / 0x100_0000u32) as u8 == (x >> 24u32) as u8,
{
}

proof fn lemma_bytes32_bits(x: u32)
    ensures
        (x % 0x100u32) as u8 == (x & 0xffu32) as u8,
        ((x / 0x100u32) % 0x100u32) as u8 == ((x >> 8u32) & 0xffu32) as u8,
        ((x / 0x1_0000u32) % 0x100u32) as u8 == ((x >> 16u32) & 0xffu32) as u8,
        (x / 0x100_0000u32) as u8 == (x >> 24u32) as u8,
{
    lemma_bytes32_bits_0(x);
    lemma_bytes32_bits_1(x);
    lemma_bytes32_bits_2(x);
    lemma_bytes32_bits_3(x);
}

proof fn lemma_regs_bits(src: u8, dst: u8)
    by (bit_vector)
    ensures
        (src << 4u8) | (dst & 0x0f) == (src % 16) * 16 + dst % 16,
{
}

proof fn lemma_halves_bits(x: u64)
    by (bit_vector)
    ensures
        (x % 0x1_0000_0000) as u32 == x as u32,
        (x / 0x1_0000_0000) as u32 == (x >> 32u64) as u32,
{
}

proof fn lemma_signed_high_half(v: i64)
    by (bit_vector)
    ensures
        ((v >> 32i64) as u64) as u32 == ((v as u64) >> 32u64) as u32,
{
}

/// The encoding, in the terms of masks, shifts and little-endian byte
/// arrays: the register byte is `(src << 4) | (dst & 0x0f)`; a wide load is
/// the wide-load opcode, that byte, the offset's and the constant's low
/// word's little-endian bytes, four zero bytes, and the little-endian bytes
/// of the constant shifted right by 32 (its opcode and 32-bit immediate are
/// not used); any other instruction is its opcode, that byte, and the
/// offset's and immediate's little-endian bytes.
pub proof fn lemma_encoding_layout(ins: Insn)
    ensures
        encode_insn_spec(ins) == (match ins.imm64 {
            Some(v) => seq![BPF_LD_IMM_DW, (ins.src << 4u8) | (ins.dst & 0x0f)] + le_bytes16_bits(
                ins.offset as u16,
            ) + le_bytes32_bits((v as u64) as u32) + seq![0u8, 0u8, 0u8, 0u8] + le_bytes32_bits(
                ((v >> 32i64) as u64) as u32,
            ),
            None => seq![ins.opcode, (ins.src << 4u8) | (ins.dst & 0x0f)] + le_bytes16_bits(
                ins.offset as u16,
            ) + le_bytes32_bits(ins.imm as u32),
        }),
{
    lemma_regs_bits(ins.src, ins.dst);
    lemma_bytes16_bits(ins.offset as u16);
    assert(le_bytes16(ins.offset as u16) =~= le_bytes16_bits(ins.offset as u16));
    match ins.imm64 {
        Some(v) => {
            let x = v as u64;
            lemma_halves_bits(x);
            lemma_signed_high_half(v);
            lemma_bytes32_bits((x % 0x1_0000_0000) as u32);
            lemma_bytes32_bits((x / 0x1_0000_0000) as u32);
            assert(le_bytes32((x % 0x1_0000_0000) as u32) =~= le_bytes32_bits(x as u32));
            assert(le_bytes32((x / 0x1_0000_0000) as u32) =~= le_bytes32_bits(((v >> 32i64) as u64) as u32));
        },
        None => {
            lemma_bytes32_bits(ins.imm as u32);
            assert(le_bytes32(ins.imm as u32) =~= le_bytes32_bits(ins.imm as u32));
        },
    }
}

} // verus!
