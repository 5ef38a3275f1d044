//! Properties of the decoder and encoder that hold across calls: slot
//! accounting, the two round trips, and the rejection of a truncated wide
//! load.

use vstd::prelude::*;
use crate::insn::{Insn, DecoderError, decode_from, decode_spec, insn_at, le16, le32, le32_at, prepend};
use crate::encode::{encode_insn_spec, encode_program_spec, le_bytes16, le_bytes32, regs_byte};
use crate::opcode::BPF_LD_IMM_DW;

verus! {

/// The number of slots that `prog` occupies.
pub open spec fn total_slots(prog: Seq<Insn>) -> nat
    decreases prog.len(),
{
    if prog.len() == 0 {
        0
    } else {
        prog[0].slots as nat + total_slots(prog.drop_first())
    }
}

/// A single instruction in the form the decoder produces: registers fit in
/// a nibble, a wide load carries the wide-load opcode, two slots and, in its
/// 32-bit immediate, the low half of its constant; any other instruction
/// takes one slot.
pub open spec fn insn_well_formed(ins: Insn) -> bool {
    &&& ins.src < 16
    &&& ins.dst < 16
    &&& match ins.imm64 {
        Some(v) => ins.opcode == BPF_LD_IMM_DW && ins.slots == 2 && ins.imm == (((v as u64)
            % 0x1_0000_0000) as u32) as i32,
        None => ins.opcode != BPF_LD_IMM_DW && ins.slots == 1,
    }
}

/// Every instruction is well formed and is numbered by the slots before it,
/// counting from slot `base`.
pub open spec fn well_formed_from(prog: Seq<Insn>, base: nat) -> bool {
    forall|k: int|
        0 <= k < prog.len() ==> insn_well_formed(#[trigger] prog[k]) && prog[k].slot == base
            + total_slots(prog.take(k))
}

/// A program in the form the decoder produces, numbered from slot 0.
pub open spec fn well_formed_program(prog: Seq<Insn>) -> bool {
    well_formed_from(prog, 0)
}

/// The first four bytes (opcode, registers and offset) of every wide
/// load's second slot in `code` are zero.
pub open spec fn second_slots_blank(code: Seq<u8>, prog: Seq<Insn>) -> bool {
    forall|k: int|
        0 <= k < prog.len() && (#[trigger] prog[k]).imm64 is Some ==> code.subrange(
            8 * prog[k].slot + 8,
            8 * prog[k].slot + 12,
        ) == seq![0u8, 0u8, 0u8, 0u8]
}

proof fn lemma_total_slots_take_succ(prog: Seq<Insn>, k: int)
    requires
        0 < k <= prog.len(),
    ensures
        prog.take(k).drop_first() == prog.drop_first().take(k - 1),
        total_slots(prog.take(k)) == prog[0].slots + total_slots(prog.drop_first().take(k - 1)),
{
    assert(prog.take(k).drop_first() =~= prog.drop_first().take(k - 1));
}

#[verifier::spinoff_prover]
proof fn lemma_slot_accounting_from(code: Seq<u8>, i: int, rest: Seq<Insn>)
    requires
        code.len() % 8 == 0,
        code.len() <= usize::MAX,
        0 <= i <= code.len(),
        i % 8 == 0,
        decode_from(code, i) == Ok::<Seq<Insn>, DecoderError>(rest),
    ensures
        total_slots(rest) == (code.len() - i) / 8,
        forall|k: int| 0 <= k < rest.len() ==> (#[trigger] rest[k]).slot == i / 8 + total_slots(rest.take(k)),
        forall|k: int| 0 <= k < rest.len() ==> (#[trigger] rest[k]).slots == (if rest[k].imm64 is Some { 2int } else { 1int }),
    decreases code.len() - i,
{
    if i + 8 > code.len() {
        assert(rest =~= Seq::<Insn>::empty());
    } else {
        let wide = code[i] == BPF_LD_IMM_DW;
        let w: int = if wide { 16 } else { 8 };
        let tail = decode_from(code, i + w).unwrap();
        assert(rest =~= seq![insn_at(code, i, wide)] + tail);
        lemma_slot_accounting_from(code, i + w, tail);
        assert(rest.drop_first() =~= tail);
        assert forall|k: int| 0 <= k < rest.len() implies (#[trigger] rest[k]).slot == i / 8
            + total_slots(rest.take(k)) by {
            if k == 0 {
                assert(rest.take(0) =~= Seq::<Insn>::empty());
            } else {
                lemma_total_slots_take_succ(rest, k);
                assert(rest[k] == tail[k - 1]);
            }
        }
        assert forall|k: int| 0 <= k < rest.len() implies (#[trigger] rest[k]).slots == (if rest[k].imm64 is Some { 2int } else { 1int }) by {
            if k > 0 {
                assert(rest[k] == tail[k - 1]);
            }
        }
    }
}

/// Slot accounting and monotonicity: on any stream that decodes, the
/// instructions' slot counts sum to the stream's slot count, each
/// instruction is numbered by the slots consumed before it, and a wide load
/// is exactly an instruction of two slots.
pub proof fn lemma_slot_accounting(code: Seq<u8>, prog: Seq<Insn>)
    requires
        code.len() <= usize::MAX,
        decode_spec(code) == Ok::<Seq<Insn>, DecoderError>(prog),
    ensures
        total_slots(prog) == code.len() / 8,
        forall|k: int| 0 <= k < prog.len() ==> (#[trigger] prog[k]).slot == total_slots(prog.take(k)),
        forall|k: int| 0 <= k < prog.len() ==> (#[trigger] prog[k]).slots == (if prog[k].imm64 is Some { 2int } else { 1int }),
{
    lemma_slot_accounting_from(code, 0, prog);
}

/// The slots of two programs placed one after the other add up.
pub proof fn lemma_total_slots_append(a: Seq<Insn>, b: Seq<Insn>)
    ensures
        total_slots(a + b) == total_slots(a) + total_slots(b),
    decreases a.len(),
{
    if a.len() == 0 {
        assert(a + b =~= b);
    } else {
        assert((a + b).drop_first() =~= a.drop_first() + b);
        assert((a + b)[0] == a[0]);
        lemma_total_slots_append(a.drop_first(), b);
    }
}

/// The slots before instruction `k + 1` are those before `k` and those of
/// `k`; they never exceed the program's slots.
pub proof fn lemma_total_slots_prefix(prog: Seq<Insn>, k: int)
    requires
        0 <= k < prog.len(),
    ensures
        total_slots(prog.take(k + 1)) == total_slots(prog.take(k)) + prog[k].slots,
        total_slots(prog.take(k + 1)) <= total_slots(prog),
{
    assert(prog.take(k + 1) =~= prog.take(k) + seq![prog[k]]);
    lemma_total_slots_append(prog.take(k), seq![prog[k]]);
    assert(seq![prog[k]].drop_first() =~= Seq::<Insn>::empty());
    assert(total_slots(Seq::<Insn>::empty()) == 0);
    assert(total_slots(seq![prog[k]]) == prog[k].slots);
    assert(prog =~= prog.take(k + 1) + prog.skip(k + 1));
    lemma_total_slots_append(prog.take(k + 1), prog.skip(k + 1));
}

proof fn lemma_u16_i16_round(x: u16)
    ensures
        (x as i16) as u16 == x,
{
    assert((x as i16) as u16 == x) by (bit_vector);
}

proof fn lemma_i16_u16_round(x: i16)
    ensures
        (x as u16) as i16 == x,
{
    assert((x as u16) as i16 == x) by (bit_vector);
}

proof fn lemma_u32_i32_round(x: u32)
    ensures
        (x as i32) as u32 == x,
{
    assert((x as i32) as u32 == x) by (bit_vector);
}

proof fn lemma_i32_u32_round(x: i32)
    ensures
        (x as u32) as i32 == x,
{
    assert((x as u32) as i32 == x) by (bit_vector);
}

proof fn lemma_u64_i64_round(x: u64)
    ensures
        (x as i64) as u64 == x,
{
    assert((x as i64) as u64 == x) by (bit_vector);
}

proof fn lemma_i64_u64_round(x: i64)
    ensures
        (x as u64) as i64 == x,
{
    assert((x as u64) as i64 == x) by (bit_vector);
}

proof fn lemma_le16_bytes(b0: u8, b1: u8)
    ensures
        le_bytes16(le16(b0, b1)) == seq![b0, b1],
{
    assert(le_bytes16(le16(b0, b1)) =~= seq![b0, b1]);
}

proof fn lemma_bytes_le16(x: u16)
    ensures
        le16((x % 0x100) as u8, (x / 0x100) as u8) == x,
{
}

proof fn lemma_le32_split(b0: u8, b1: u8, b2: u8, b3: u8)
    by (bit_vector)
    ensures
        le32(b0, b1, b2, b3) % 0x100 == b0,
        (le32(b0, b1, b2, b3) / 0x100) % 0x100 == b1,
        (le32(b0, b1, b2, b3) / 0x1_0000) % 0x100 == b2,
        le32(b0, b1, b2, b3) / 0x100_0000 == b3,
{
}

proof fn lemma_le32_bytes(code: Seq<u8>, i: int)
    requires
        0 <= i,
        i + 4 <= code.len(),
    ensures
        le_bytes32(le32_at(code, i)) == code.subrange(i, i + 4),
{
    lemma_le32_split(code[i], code[i + 1], code[i + 2], code[i + 3]);
    assert(le_bytes32(le32_at(code, i)) =~= code.subrange(i, i + 4));
}

proof fn lemma_bytes_le32(x: u32)
    by (bit_vector)
    ensures
        le32(
            (x % 0x100) as u8,
            ((x / 0x100) % 0x100) as u8,
            ((x / 0x1_0000) % 0x100) as u8,
            (x / 0x100_0000) as u8,
        ) == x,
{
}

proof fn lemma_regs_byte_split(b: u8)
    ensures
        regs_byte(b / 16, b % 16) == b,
{
}

/// Re-encoding the instruction decoded at `i` gives back its bytes, provided
/// a wide load's second-slot header is zero.
#[verifier::spinoff_prover]
proof fn lemma_encode_insn_at(code: Seq<u8>, i: int, wide: bool)
    requires
        0 <= i,
        i + (if wide { 16int } else { 8int }) <= code.len(),
        wide <==> code[i] == BPF_LD_IMM_DW,
        wide ==> code.subrange(i + 8, i + 12) == seq![0u8, 0u8, 0u8, 0u8],
    ensures
        encode_insn_spec(insn_at(code, i, wide)) == code.subrange(i, i + (if wide { 16int } else { 8int })),
{
    let ins = insn_at(code, i, wide);
    lemma_regs_byte_split(code[i + 1]);
    lemma_u16_i16_round(le16(code[i + 2], code[i + 3]));
    lemma_le16_bytes(code[i + 2], code[i + 3]);
    lemma_u32_i32_round(le32_at(code, i + 4));
    lemma_le32_bytes(code, i + 4);
    if wide {
        let lo = le32_at(code, i + 4);
        let hi = le32_at(code, i + 12);
        let n: u64 = (lo as int + 0x1_0000_0000 * hi as int) as u64;
        assert(n as int == lo as int + 0x1_0000_0000 * hi as int);
        lemma_u64_i64_round(n);
        assert((n % 0x1_0000_0000) as u32 == lo);
        assert((n / 0x1_0000_0000) as u32 == hi);
        lemma_le32_bytes(code, i + 12);
        assert(encode_insn_spec(ins) =~= code.subrange(i, i + 16));
    } else {
        assert(encode_insn_spec(ins) =~= code.subrange(i, i + 8));
    }
}

#[verifier::spinoff_prover]
proof fn lemma_parse_serialize_from(code: Seq<u8>, i: int, rest: Seq<Insn>)
    requires
        code.len() % 8 == 0,
        code.len() <= usize::MAX,
        0 <= i <= code.len(),
        i % 8 == 0,
        decode_from(code, i) == Ok::<Seq<Insn>, DecoderError>(rest),
        second_slots_blank(code, rest),
    ensures
        encode_program_spec(rest) == code.subrange(i, code.len() as int),
    decreases code.len() - i,
{
    if i + 8 > code.len() {
        assert(rest =~= Seq::<Insn>::empty());
        assert(code.subrange(i, code.len() as int) =~= Seq::<u8>::empty());
    } else {
        let wide = code[i] == BPF_LD_IMM_DW;
        let w: int = if wide { 16 } else { 8 };
        let tail = decode_from(code, i + w).unwrap();
        let head = insn_at(code, i, wide);
        assert(rest =~= seq![head] + tail);
        assert(rest[0] == head);
        assert(rest.drop_first() =~= tail);
        assert forall|k: int| 0 <= k < tail.len() && (#[trigger] tail[k]).imm64 is Some implies code.subrange(
            8 * tail[k].slot + 8,
            8 * tail[k].slot + 12,
        ) == seq![0u8, 0u8, 0u8, 0u8] by {
            assert(rest[k + 1] == tail[k]);
        }
        if wide {
            assert(head.imm64 is Some);
            assert(8 * head.slot == i);
        }
        lemma_encode_insn_at(code, i, wide);
        lemma_parse_serialize_from(code, i + w, tail);
        assert(code.subrange(i, i + w) + code.subrange(i + w, code.len() as int) =~= code.subrange(
            i,
            code.len() as int,
        ));
    }
}

/// Decode then encode: re-encoding a decoded stream reproduces the stream,
/// whenever each wide load's second slot has zero opcode, register and
/// offset bytes (the decoder ignores those bytes, the encoder writes zeros).
pub proof fn lemma_parse_serialize_roundtrip(code: Seq<u8>, prog: Seq<Insn>)
    requires
        code.len() <= usize::MAX,
        decode_spec(code) == Ok::<Seq<Insn>, DecoderError>(prog),
        second_slots_blank(code, prog),
    ensures
        encode_program_spec(prog) == code,
{
    lemma_parse_serialize_from(code, 0, prog);
    assert(code.subrange(0, code.len() as int) =~= code);
}

/// Every instruction the decoder yields is well formed and numbered by the
/// slots before it.
pub proof fn lemma_decode_well_formed(code: Seq<u8>, prog: Seq<Insn>)
    requires
        code.len() <= usize::MAX,
        decode_spec(code) == Ok::<Seq<Insn>, DecoderError>(prog),
    ensures
        well_formed_program(prog),
{
    lemma_slot_accounting(code, prog);
    lemma_insns_well_formed_from(code, 0, prog);
}

#[verifier::spinoff_prover]
proof fn lemma_insns_well_formed_from(code: Seq<u8>, i: int, rest: Seq<Insn>)
    requires
        code.len() % 8 == 0,
        0 <= i <= code.len(),
        i % 8 == 0,
        decode_from(code, i) == Ok::<Seq<Insn>, DecoderError>(rest),
    ensures
        forall|k: int| 0 <= k < rest.len() ==> insn_well_formed(#[trigger] rest[k]),
    decreases code.len() - i,
{
    if i + 8 > code.len() {
        assert(rest =~= Seq::<Insn>::empty());
    } else {
        let wide = code[i] == BPF_LD_IMM_DW;
        let w: int = if wide { 16 } else { 8 };
        let tail = decode_from(code, i + w).unwrap();
        let head = insn_at(code, i, wide);
        assert(rest =~= seq![head] + tail);
        lemma_insns_well_formed_from(code, i + w, tail);
        assert(code[i + 1] / 16 < 16);
        if wide {
            let lo = le32_at(code, i + 4);
            let hi = le32_at(code, i + 12);
            let n: u64 = (lo as int + 0x1_0000_0000 * hi as int) as u64;
            assert(n as int == lo as int + 0x1_0000_0000 * hi as int);
            lemma_u64_i64_round(n);
            assert((n % 0x1_0000_0000) as u32 == lo);
        }
        assert(insn_well_formed(head));
        assert forall|k: int| 0 <= k < rest.len() implies insn_well_formed(#[trigger] rest[k]) by {
            if k > 0 {
                assert(rest[k] == tail[k - 1]);
            }
        }
    }
}

/// Decoding the bytes of a well-formed instruction placed at byte `i`
/// (with `i` its slot times 8) gives that instruction back.
#[verifier::spinoff_prover]
proof fn lemma_decode_insn_of_encoding(code: Seq<u8>, i: int, ins: Insn)
    requires
        0 <= i,
        i == 8 * ins.slot,
        insn_well_formed(ins),
        i + encode_insn_spec(ins).len() <= code.len(),
        code.subrange(i, i + encode_insn_spec(ins).len()) == encode_insn_spec(ins),
    ensures
        encode_insn_spec(ins).len() == 8 * ins.slots,
        (code[i] == BPF_LD_IMM_DW) == ins.imm64 is Some,
        insn_at(code, i, ins.imm64 is Some) == ins,
{
    let e = encode_insn_spec(ins);
    assert forall|j: int| 0 <= j < e.len() implies code[i + j] == #[trigger] e[j] by {
        assert(code.subrange(i, i + e.len())[j] == code[i + j]);
    }
    let x = #[verifier::truncate] (ins.offset as u16);
    lemma_i16_u16_round(ins.offset);
    lemma_bytes_le16(x);
    assert(e[0] == code[i] && e[1] == code[i + 1] && e[2] == code[i + 2] && e[3] == code[i + 3]);
    assert(e[4] == code[i + 4] && e[5] == code[i + 5] && e[6] == code[i + 6] && e[7] == code[i + 7]);
    assert(code[i + 2] == (x % 0x100) as u8);
    assert(code[i + 3] == (x / 0x100) as u8);
    assert(code[i + 1] / 16 == ins.src && code[i + 1] % 16 == ins.dst);
    match ins.imm64 {
        Some(v) => {
            let bits = v as u64;
            let lo = (bits % 0x1_0000_0000) as u32;
            let hi = (bits / 0x1_0000_0000) as u32;
            lemma_bytes_le32(lo);
            lemma_bytes_le32(hi);
            assert(e[12] == code[i + 12] && e[13] == code[i + 13] && e[14] == code[i + 14] && e[15]
                == code[i + 15]);
            assert(le32_at(code, i + 4) == lo);
            assert(le32_at(code, i + 12) == hi);
            lemma_i64_u64_round(v);
            assert((lo as int + 0x1_0000_0000 * hi as int) as u64 == bits);
            assert(insn_at(code, i, true) == ins);
        },
        None => {
            let y = #[verifier::truncate] (ins.imm as u32);
            lemma_i32_u32_round(ins.imm);
            lemma_bytes_le32(y);
            assert(le32_at(code, i + 4) == y);
            assert(insn_at(code, i, false) == ins);
        },
    }
}

#[verifier::spinoff_prover]
#[verifier::rlimit(40)]
proof fn lemma_serialize_parse_from(pre: Seq<u8>, prog: Seq<Insn>)
    requires
        pre.len() % 8 == 0,
        well_formed_from(prog, pre.len() / 8),
    ensures
        encode_program_spec(prog).len() == 8 * total_slots(prog),
        decode_from(pre + encode_program_spec(prog), pre.len() as int) == Ok::<Seq<Insn>, DecoderError>(prog),
    decreases prog.len(),
{
    let code = pre + encode_program_spec(prog);
    let i = pre.len() as int;
    if prog.len() == 0 {
        assert(code =~= pre);
        assert(prog =~= Seq::<Insn>::empty());
    } else {
        let head = prog[0];
        let tail = prog.drop_first();
        let e = encode_insn_spec(head);
        assert(prog.take(0) =~= Seq::<Insn>::empty());
        assert(head.slot == pre.len() / 8);
        assert(insn_well_formed(head));
        assert(e.len() == 8 * head.slots);
        let pre2 = pre + e;
        assert forall|k: int| 0 <= k < tail.len() implies insn_well_formed(#[trigger] tail[k])
            && tail[k].slot == pre2.len() / 8 + total_slots(tail.take(k)) by {
            assert(tail[k] == prog[k + 1]);
            lemma_total_slots_take_succ(prog, k + 1);
        }
        lemma_serialize_parse_from(pre2, tail);
        assert(code =~= pre2 + encode_program_spec(tail));
        assert(code.subrange(i, i + e.len()) =~= e);
        lemma_decode_insn_of_encoding(code, i, head);
        let wide = head.imm64 is Some;
        let w: int = if wide { 16 } else { 8 };
        assert(decode_from(code, i) == prepend(seq![head], decode_from(code, i + w)));
        assert(seq![head] + tail =~= prog);
    }
}

/// Encode then decode: decoding the encoding of a well-formed program gives
/// the program back.
#[verifier::spinoff_prover]
pub proof fn lemma_serialize_parse_roundtrip(prog: Seq<Insn>)
    requires
        well_formed_program(prog),
    ensures
        encode_program_spec(prog).len() == 8 * total_slots(prog),
        decode_spec(encode_program_spec(prog)) == Ok::<Seq<Insn>, DecoderError>(prog),
{
    lemma_serialize_parse_from(Seq::empty(), prog);
    assert(Seq::<u8>::empty() + encode_program_spec(prog) =~= encode_program_spec(prog));
}

/// Decode, encode, decode: re-encoding a decoded program and decoding the
/// bytes again gives the same program.
pub proof fn lemma_decode_encode_decode(code: Seq<u8>, prog: Seq<Insn>)
    requires
        code.len() <= usize::MAX,
        decode_spec(code) == Ok::<Seq<Insn>, DecoderError>(prog),
    ensures
        decode_spec(encode_program_spec(prog)) == Ok::<Seq<Insn>, DecoderError>(prog),
{
    lemma_decode_well_formed(code, prog);
    lemma_serialize_parse_roundtrip(prog);
}

proof fn lemma_truncated_from(p: Seq<u8>, t: Seq<u8>, i: int)
    requires
        p.len() % 8 == 0,
        0 <= i <= p.len(),
        i % 8 == 0,
        decode_from(p, i) is Ok,
        t.len() == 8,
        t[0] == BPF_LD_IMM_DW,
    ensures
        decode_from(p + t, i) == Err::<Seq<Insn>, DecoderError>(
            DecoderError::TruncatedWideLoad((p.len() / 8) as usize),
        ),
    decreases p.len() - i,
{
    let code = p + t;
    if i == p.len() {
        assert(code[i] == t[0]);
    } else {
        assert(code[i] == p[i]);
        let w: int = if p[i] == BPF_LD_IMM_DW { 16 } else { 8 };
        lemma_truncated_from(p, t, i + w);
    }
}

/// A stream that decodes, followed by one slot holding a wide-load opcode
/// and nothing after it, is rejected as a truncated wide load in that last
/// slot.
pub proof fn lemma_truncated_wide_load_rejected(p: Seq<u8>, t: Seq<u8>)
    requires
        decode_spec(p) is Ok,
        t.len() == 8,
        t[0] == BPF_LD_IMM_DW,
    ensures
        decode_spec(p + t) == Err::<Seq<Insn>, DecoderError>(
            DecoderError::TruncatedWideLoad((p.len() / 8) as usize),
        ),
{
    lemma_truncated_from(p, t, 0);
}


/// The width in bytes of the instruction starting at byte `i`.
pub open spec fn width_at(code: Seq<u8>, i: int) -> int {
    if code[i] == BPF_LD_IMM_DW {
        16
    } else {
        8
    }
}

/// Whether decoding from byte `i` on starts an instruction at byte `b`.
pub open spec fn boundary_from(code: Seq<u8>, i: int, b: int) -> bool
    decreases code.len() - i,
{
    if i == b {
        true
    } else if 0 <= i < b && i + width_at(code, i) <= code.len() {
        boundary_from(code, i + width_at(code, i), b)
    } else {
        false
    }
}

#[verifier::spinoff_prover]
proof fn lemma_boundaries_from(code: Seq<u8>, i: int, rest: Seq<Insn>)
    requires
        code.len() % 8 == 0,
        code.len() <= usize::MAX,
        0 <= i <= code.len(),
        i % 8 == 0,
        decode_from(code, i) == Ok::<Seq<Insn>, DecoderError>(rest),
    ensures
        forall|k: int|
            0 <= k < rest.len() ==> {
                let b = 8 * (#[trigger] rest[k]).slot;
                &&& i <= b
                &&& boundary_from(code, i, b)
                &&& b + width_at(code, b) <= code.len()
                &&& (rest[k].imm64 is Some <==> code[b] == BPF_LD_IMM_DW)
                &&& rest[k] == insn_at(code, b, code[b] == BPF_LD_IMM_DW)
            },
    decreases code.len() - i,
{
    if i + 8 <= code.len() {
        let wide = code[i] == BPF_LD_IMM_DW;
        let w: int = if wide { 16 } else { 8 };
        let tail = decode_from(code, i + w).unwrap();
        let head = insn_at(code, i, wide);
        assert(rest =~= seq![head] + tail);
        lemma_boundaries_from(code, i + w, tail);
        assert forall|k: int| 0 <= k < rest.len() implies {
            let b = 8 * (#[trigger] rest[k]).slot;
            &&& i <= b
            &&& boundary_from(code, i, b)
            &&& b + width_at(code, b) <= code.len()
            &&& (rest[k].imm64 is Some <==> code[b] == BPF_LD_IMM_DW)
            &&& rest[k] == insn_at(code, b, code[b] == BPF_LD_IMM_DW)
        } by {
            if k == 0 {
                assert(8 * head.slot == i);
            } else {
                assert(rest[k] == tail[k - 1]);
            }
        }
    } else {
        assert(rest =~= Seq::<Insn>::empty());
    }
}

proof fn lemma_decode_from_suffix(code: Seq<u8>, code2: Seq<u8>, i: int)
    requires
        code2.len() == code.len(),
        0 <= i,
        forall|j: int| i <= j < code.len() ==> code2[j] == code[j],
    ensures
        decode_from(code2, i) == decode_from(code, i),
    decreases code.len() - i,
{
    if i + 8 <= code.len() {
        assert(code2[i] == code[i]);
        let w: int = if code[i] == BPF_LD_IMM_DW { 16 } else { 8 };
        if i + w <= code.len() {
            lemma_decode_from_suffix(code, code2, i + w);
            assert(insn_at(code2, i, w == 16) == insn_at(code, i, w == 16));
        }
    }
}

#[verifier::spinoff_prover]
proof fn lemma_header_ignored_from(code: Seq<u8>, code2: Seq<u8>, i: int, b: int)
    requires
        code2.len() == code.len(),
        0 <= i,
        boundary_from(code, i, b),
        code[b] == BPF_LD_IMM_DW,
        b + 16 <= code.len(),
        forall|j: int| i <= j < code.len() && !(b + 8 <= j < b + 12) ==> code2[j] == code[j],
    ensures
        decode_from(code2, i) == decode_from(code, i),
    decreases code.len() - i,
{
    assert(code2[i] == code[i]);
    if i == b {
        lemma_decode_from_suffix(code, code2, i + 16);
        assert(insn_at(code2, i, true) == insn_at(code, i, true));
    } else {
        let w = width_at(code, i);
        assert(boundary_from(code, i + w, b));
        lemma_boundary_after(code, i + w, b);
        lemma_header_ignored_from(code, code2, i + w, b);
        if w == 16 {
            assert(insn_at(code2, i, true) == insn_at(code, i, true));
        } else {
            assert(insn_at(code2, i, false) == insn_at(code, i, false));
        }
    }
}

proof fn lemma_boundary_after(code: Seq<u8>, i: int, b: int)
    requires
        boundary_from(code, i, b),
    ensures
        i <= b,
    decreases code.len() - i,
{
    if i != b {
        lemma_boundary_after(code, i + width_at(code, i), b);
    }
}

/// The second slot of a wide load contributes only its immediate: changing
/// that slot's opcode, register and offset bytes does not change what the
/// stream decodes to.
pub proof fn lemma_second_slot_header_ignored(code: Seq<u8>, code2: Seq<u8>, prog: Seq<Insn>, k: int)
    requires
        code.len() <= usize::MAX,
        decode_spec(code) == Ok::<Seq<Insn>, DecoderError>(prog),
        0 <= k < prog.len(),
        prog[k].imm64 is Some,
        code2.len() == code.len(),
        forall|j: int|
            0 <= j < code.len() && !(8 * prog[k].slot + 8 <= j < 8 * prog[k].slot + 12) ==> code2[j]
                == code[j],
    ensures
        decode_spec(code2) == Ok::<Seq<Insn>, DecoderError>(prog),
{
    lemma_boundaries_from(code, 0, prog);
    let b = 8 * prog[k].slot;
    assert(boundary_from(code, 0, b));
    lemma_header_ignored_from(code, code2, 0, b);
}


#[verifier::spinoff_prover]
proof fn lemma_truncated_only_at_end(code: Seq<u8>, i: int)
    requires
        code.len() % 8 == 0,
        0 <= i <= code.len(),
        i % 8 == 0,
        decode_from(code, i) is Err,
    ensures
        code.len() >= 8,
        i <= code.len() - 8,
        code[code.len() - 8] == BPF_LD_IMM_DW,
        decode_from(code, i) == Err::<Seq<Insn>, DecoderError>(
            DecoderError::TruncatedWideLoad(((code.len() - 8) / 8) as usize),
        ),
        decode_from(code.take(code.len() - 8), i) is Ok,
    decreases code.len() - i,
{
    let n = code.len() as int;
    let p = code.take(n - 8);
    if code[i] == BPF_LD_IMM_DW {
        if i + 16 > n {
            assert(i == n - 8);
        } else {
            lemma_truncated_only_at_end(code, i + 16);
            assert(p[i] == code[i]);
        }
    } else {
        lemma_truncated_only_at_end(code, i + 8);
        assert(p[i] == code[i]);
    }
}

/// How decoding ends: `NotSlotAligned` with the length exactly when the
/// length is not a multiple of 8; `TruncatedWideLoad(s)` exactly when the
/// stream is aligned, its last slot `s` holds the wide-load opcode and the
/// slots before it decode; success otherwise.
pub proof fn lemma_decode_outcomes(code: Seq<u8>, s: usize)
    requires
        code.len() <= usize::MAX,
    ensures
        (decode_spec(code) == Err::<Seq<Insn>, DecoderError>(DecoderError::NotSlotAligned(code.len() as usize)))
            <==> code.len() % 8 != 0,
        (decode_spec(code) == Err::<Seq<Insn>, DecoderError>(DecoderError::TruncatedWideLoad(s))) <==> (
        code.len() % 8 == 0 && code.len() >= 8 && s == code.len() / 8 - 1 && code[8 * s] == BPF_LD_IMM_DW
            && decode_spec(code.take(8 * s)) is Ok),
        decode_spec(code) is Ok <==> (code.len() % 8 == 0 && !(code.len() >= 8 && code[code.len() - 8]
            == BPF_LD_IMM_DW && decode_spec(code.take(code.len() - 8)) is Ok)),
{
    let n = code.len() as int;
    if n % 8 == 0 {
        if decode_from(code, 0) is Err {
            lemma_truncated_only_at_end(code, 0);
            assert(code.take(n - 8).len() % 8 == 0);
        } else if n >= 8 && code[n - 8] == BPF_LD_IMM_DW && decode_spec(code.take(n - 8)) is Ok {
            let p = code.take(n - 8);
            let t = code.skip(n - 8);
            assert(p + t =~= code);
            assert(t[0] == code[n - 8]);
            lemma_truncated_wide_load_rejected(p, t);
        }
    }
}


proof fn lemma_le_bits(b0: u8, b1: u8, b2: u8, b3: u8)
    by (bit_vector)
    ensures
        le16(b0, b1) == (b0 as u16) | ((b1 as u16) << 8u16),
        le32(b0, b1, b2, b3) == (b0 as u32) | ((b1 as u32) << 8u32) | ((b2 as u32) << 16u32) | ((
        b3 as u32) << 24u32),
        b1 & 0x0f == b1 % 16,
        b1 >> 4u8 == b1 / 16,
{
}

proof fn lemma_join_halves(lo: u32, hi: u32)
    by (bit_vector)
    ensures
        (lo as int + 0x1_0000_0000 * hi as int) as u64 == (lo as u64) | ((hi as u64) << 32u64),
{
}

#[verifier::spinoff_prover]
proof fn lemma_insn_at_fields(code: Seq<u8>, b: int)
    requires
        0 <= b,
        b + (if code[b] == BPF_LD_IMM_DW { 16int } else { 8int }) <= code.len(),
    ensures
        ({
            let ins = insn_at(code, b, code[b] == BPF_LD_IMM_DW);
            &&& b + 8 * ins.slots <= code.len()
            &&& ins.opcode == code[b]
            &&& ins.dst == code[b + 1] & 0x0f
            &&& ins.src == code[b + 1] >> 4u8
            &&& ins.offset == ((code[b + 2] as u16) | ((code[b + 3] as u16) << 8u16)) as i16
            &&& ins.imm == ((code[b + 4] as u32) | ((code[b + 5] as u32) << 8u32) | ((code[b + 6] as u32)
                << 16u32) | ((code[b + 7] as u32) << 24u32)) as i32
            &&& (ins.slots == 2 <==> ins.opcode == BPF_LD_IMM_DW)
            &&& (ins.imm64 is Some <==> ins.opcode == BPF_LD_IMM_DW)
            &&& ins.imm64 is Some ==> ins.imm64 == Some(
                (((ins.imm as u32) as u64) | ((((code[b + 12] as u32) | ((code[b + 13] as u32) << 8u32) | ((
                code[b + 14] as u32) << 16u32) | ((code[b + 15] as u32) << 24u32)) as u64) << 32u64)) as i64,
            )
        }),
{
    let ins = insn_at(code, b, code[b] == BPF_LD_IMM_DW);
    lemma_le_bits(code[b], code[b + 1], 0, 0);
    lemma_le_bits(code[b + 2], code[b + 3], 0, 0);
    lemma_le_bits(code[b + 4], code[b + 5], code[b + 6], code[b + 7]);
    if code[b] == BPF_LD_IMM_DW {
        lemma_le_bits(code[b + 12], code[b + 13], code[b + 14], code[b + 15]);
        let lo = le32_at(code, b + 4);
        let hi = le32_at(code, b + 12);
        lemma_u32_i32_round(lo);
        lemma_join_halves(lo, hi);
        assert(ins.imm as u32 == lo);
        assert(ins.imm64 == Some(((lo as int + 0x1_0000_0000 * hi as int) as u64) as i64));
    }
    assert(b + 8 * ins.slots <= code.len());
    assert(ins.opcode == code[b]);
    assert(ins.dst == code[b + 1] & 0x0f);
    assert(ins.src == code[b + 1] >> 4u8);
    assert(ins.offset == ((code[b + 2] as u16) | ((code[b + 3] as u16) << 8u16)) as i16);
    assert(ins.imm == ((code[b + 4] as u32) | ((code[b + 5] as u32) << 8u32) | ((code[b + 6] as u32)
        << 16u32) | ((code[b + 7] as u32) << 24u32)) as i32);
}

/// How each field of a decoded instruction comes from the bytes of its
/// slots: with `b` the byte at which instruction `k` starts (8 times its
/// slot), the opcode is byte `b`, the destination register the low nibble
/// and the source register the high nibble of byte `b + 1`, the offset the
/// little-endian `i16` at `b + 2`, the immediate the little-endian `i32` at
/// `b + 4`; it is a wide load, of two slots, exactly when its opcode is the
/// wide-load opcode, and then its constant joins the immediate's 32 bits
/// (low) with those of the little-endian word at `b + 12` (high).
pub proof fn lemma_decoded_fields(code: Seq<u8>, prog: Seq<Insn>, k: int)
    requires
        code.len() <= usize::MAX,
        decode_spec(code) == Ok::<Seq<Insn>, DecoderError>(prog),
        0 <= k < prog.len(),
    ensures
        ({
            let ins = prog[k];
            let b = 8 * ins.slot;
            &&& b + 8 * ins.slots <= code.len()
            &&& ins.opcode == code[b]
            &&& ins.dst == code[b + 1] & 0x0f
            &&& ins.src == code[b + 1] >> 4u8
            &&& ins.offset == ((code[b + 2] as u16) | ((code[b + 3] as u16) << 8u16)) as i16
            &&& ins.imm == ((code[b + 4] as u32) | ((code[b + 5] as u32) << 8u32) | ((code[b + 6] as u32)
                << 16u32) | ((code[b + 7] as u32) << 24u32)) as i32
            &&& (ins.slots == 2 <==> ins.opcode == BPF_LD_IMM_DW)
            &&& (ins.imm64 is Some <==> ins.opcode == BPF_LD_IMM_DW)
            &&& ins.imm64 is Some ==> ins.imm64 == Some(
                (((ins.imm as u32) as u64) | ((((code[b + 12] as u32) | ((code[b + 13] as u32) << 8u32) | ((
                code[b + 14] as u32) << 16u32) | ((code[b + 15] as u32) << 24u32)) as u64) << 32u64)) as i64,
            )
        }),
{
    lemma_boundaries_from(code, 0, prog);
    let b = 8 * prog[k].slot;
    assert(prog[k] == insn_at(code, b, code[b] == BPF_LD_IMM_DW));
    lemma_insn_at_fields(code, b);
}

} // verus!
