use orrel::encode::{encode_insn, encode_program};
use orrel::opcode::Class;
use orrel::{decode, DecoderError, Insn};

#[test]
fn decodes_hand_authored_stream_with_wide_load() {
    // mov r0, r1 ; lddw r0, 0xdeadbeefcafef00d ; exit
    let code: [u8; 32] = [
        0xbf, 0x10, 0x00, 0x00, 0x00, 0x00, 0x00, 0x00,
        0x18, 0x00, 0x00, 0x00, 0x0d, 0xf0, 0xfe, 0xca,
        0x00, 0x00, 0x00, 0x00, 0xef, 0xbe, 0xad, 0xde,
        0x95, 0x00, 0x00, 0x00, 0x00, 0x00, 0x00, 0x00,
    ];

    let imm64_lbs = &code[12..16];
    let imm64_hbs = &code[20..24];
    let imm64 = u64::from_le_bytes([
        imm64_lbs[0], imm64_lbs[1], imm64_lbs[2], imm64_lbs[3],
        imm64_hbs[0], imm64_hbs[1], imm64_hbs[2], imm64_hbs[3],
    ]);
    println!("{imm64:064b}\n{imm64:x}");

    let prog = decode(&code).expect("must decode");

    assert_eq!(prog.len(), 3, "three instructions, not four slots");

    assert_eq!(prog[0].class(), Class::Alu64);
    assert_eq!(prog[0].dst, 0x00);
    assert_eq!(prog[0].src, 0x01);

    assert_eq!(prog[1].slot, 1);
    assert_eq!(prog[1].slots, 2);
    assert_eq!(prog[1].imm64, Some(0xdeadbeefcafef00du64 as i64));

    assert_eq!(prog[2].slot, 3, "exit instruction sits at slot 3");
    assert_eq!(prog[2].opcode, 0x95);
}

#[test]
fn rejects_truncated_wide_load() {
    let code: [u8; 8] = [0x18, 0x00, 0x00, 0x00, 0x0d, 0x0f, 0xfe, 0xca];
    assert_eq!(decode(&code), Err(DecoderError::TruncatedWideLoad(0)));
}

#[test]
fn rejects_unaligned_buffer() {
    let code: [u8; 7] = [0x95, 0x00, 0x00, 0x00, 0x00, 0x00, 0x00];
    assert_eq!(decode(&code), Err(DecoderError::NotSlotAligned(7)));
}

fn basic(opcode: u8, dst: u8, src: u8, offset: i16, imm: i32) -> Insn {
    Insn { slot: 0, opcode, src, dst, offset, imm, imm64: None, slots: 1 }
}

fn wide(dst: u8, value: u64) -> Insn {
    Insn {
        slot: 0,
        opcode: 0x18,
        src: 0,
        dst,
        offset: 0,
        imm: (value & 0xffff_ffff) as i32,
        imm64: Some(value as i64),
        slots: 2,
    }
}

/// A fixed population of well-formed streams, built from single-slot
/// instructions of several classes and wide loads.
fn sample_streams() -> Vec<Vec<u8>> {
    let opcodes: [u8; 11] = [0x07, 0xbf, 0x0f, 0xb7, 0x79, 0x7b, 0x61, 0x63, 0x05, 0x1d, 0x95];
    let mut streams = Vec::new();
    let mut seed: u64 = 0x9e37_79b9_7f4a_7c15;
    for n in 0..24usize {
        let mut buf = Vec::new();
        for k in 0..n {
            seed = seed.wrapping_mul(6364136223846793005).wrapping_add(1442695040888963407);
            let ins = if (seed >> 61) % 4 == 0 {
                wide((k % 10) as u8, seed ^ (seed << 17))
            } else {
                let op = opcodes[(seed >> 40) as usize % opcodes.len()];
                basic(op, (k % 10) as u8, (seed % 11) as u8, (seed >> 16) as i16, (seed >> 20) as i32)
            };
            buf.extend_from_slice(&encode_insn(&ins));
        }
        streams.push(buf);
    }
    streams
}

#[test]
fn slot_accounting_and_monotonicity_on_samples() {
    for buf in sample_streams() {
        let prog = decode(&buf).expect("a structurally valid stream must decode");
        let total: usize = prog.iter().map(|i| i.slots).sum();
        assert_eq!(total, buf.len() / 8, "slot accounting diverged");
        let mut expected = 0usize;
        for ins in &prog {
            assert_eq!(ins.slot, expected, "slot monotonicity broke");
            assert_eq!(ins.slots, if ins.imm64.is_some() { 2 } else { 1 });
            expected += ins.slots;
        }
    }
}

#[test]
fn round_trip_is_stable_on_samples() {
    for buf in sample_streams() {
        let prog = decode(&buf).expect("valid stream must decode");
        let reencoded = encode_program(&prog);
        assert_eq!(reencoded, buf, "re-encoding did not reproduce the same bytes");
        let prog2 = decode(&reencoded).expect("re-encoded stream must decode");
        assert_eq!(prog, prog2, "decode is not idempotent across a round trip");
    }
}

#[test]
fn truncated_wide_load_after_valid_prefix_is_rejected() {
    for buf in sample_streams().into_iter().take(8) {
        let mut buf = buf;
        let truncated_slot = buf.len() / 8;
        buf.extend_from_slice(&[0x18, 0, 0, 0, 0, 0, 0, 0]);
        assert_eq!(decode(&buf), Err(DecoderError::TruncatedWideLoad(truncated_slot)));
    }
}

#[test]
fn second_slot_header_of_wide_load_is_ignored_and_rewritten_as_zero() {
    // the decoder ignores the opcode, register and offset bytes of a wide
    // load's second slot; the encoder writes them as zero.
    let code: [u8; 16] = [
        0x18, 0x21, 0x34, 0x12, 0x01, 0x02, 0x03, 0x04,
        0xff, 0xee, 0xdd, 0xcc, 0x05, 0x06, 0x07, 0x08,
    ];
    let prog = decode(&code).unwrap();
    assert_eq!(prog.len(), 1);
    assert_eq!(prog[0].dst, 1);
    assert_eq!(prog[0].src, 2);
    assert_eq!(prog[0].offset, 0x1234);
    assert_eq!(prog[0].imm, 0x0403_0201);
    assert_eq!(prog[0].imm64, Some(0x0807_0605_0403_0201));
    let mut blank = code;
    blank[8..12].copy_from_slice(&[0, 0, 0, 0]);
    assert_eq!(decode(&blank).unwrap(), prog);
    let back = encode_program(&prog);
    assert_eq!(
        back,
        vec![0x18, 0x21, 0x34, 0x12, 0x01, 0x02, 0x03, 0x04, 0, 0, 0, 0, 0x05, 0x06, 0x07, 0x08]
    );
}

#[test]
fn decoded_fields_read_little_endian_and_signed() {
    let code: [u8; 8] = [0x61, 0xa3, 0xfe, 0xff, 0x00, 0x00, 0x00, 0x80];
    let prog = decode(&code).unwrap();
    assert_eq!(prog[0].opcode, 0x61);
    assert_eq!(prog[0].dst, 0x3);
    assert_eq!(prog[0].src, 0xa);
    assert_eq!(prog[0].offset, -2);
    assert_eq!(prog[0].imm, i32::MIN);
    assert_eq!(prog[0].imm64, None);
    assert_eq!(prog[0].class(), Class::Ldx);
}

#[test]
fn encode_insn_lengths_and_register_nibbles() {
    let one = encode_insn(&basic(0xb7, 0x1f, 0x2e, -1, -2));
    assert_eq!(one, vec![0xb7, 0xef, 0xff, 0xff, 0xfe, 0xff, 0xff, 0xff]);
    let two = encode_insn(&wide(3, 0xdead_beef_cafe_f00d));
    assert_eq!(two.len(), 16);
    assert_eq!(&two[..8], &[0x18, 0x03, 0, 0, 0x0d, 0xf0, 0xfe, 0xca]);
    assert_eq!(&two[8..], &[0, 0, 0, 0, 0xef, 0xbe, 0xad, 0xde]);
}

#[test]
fn empty_stream_decodes_to_empty_program() {
    assert_eq!(decode(&[]), Ok(Vec::new()));
    assert_eq!(encode_program(&Vec::new()), Vec::<u8>::new());
}

#[test]
fn class_of_every_low_three_bits() {
    let expected = [
        Class::Ld, Class::Ldx, Class::St, Class::Stx, Class::Alu, Class::Jmp, Class::Jmp32,
        Class::Alu64,
    ];
    for opcode in 0..=255u8 {
        assert_eq!(Class::from_opcode(opcode), expected[(opcode & 7) as usize]);
    }
}

#[test]
fn truncation_only_in_last_slot_after_decodable_prefix() {
    // a wide load whose second slot starts with the wide-load opcode is fine
    let ok: [u8; 16] = [0x18, 0, 0, 0, 1, 0, 0, 0, 0x18, 0, 0, 0, 2, 0, 0, 0];
    assert_eq!(decode(&ok).unwrap().len(), 1);
    // a lone wide-load opcode in the last slot after a complete wide load
    let mut bad = ok.to_vec();
    bad.extend_from_slice(&[0x18, 0, 0, 0, 0, 0, 0, 0]);
    assert_eq!(decode(&bad), Err(DecoderError::TruncatedWideLoad(2)));
    // alignment is checked first
    bad.push(0);
    assert_eq!(decode(&bad), Err(DecoderError::NotSlotAligned(25)));
}
