use orrel::objdump::parse_objdump;

fn entries(text: &str) -> Vec<(usize, Vec<u8>)> {
    parse_objdump(text).into_iter().map(|e| (e.slot, e.bytes)).collect()
}

#[test]
fn parses_typical_objdump_listing() {
    let text = "\nprog.o:\tfile format elf64-bpf\n\nDisassembly of section .text:\n\n0000000000000000 <f>:\n       0:\tb7 01 00 00 05 00 00 00\tr1 = 0x5\n       1:\t18 00 00 00 0d f0 fe ca 00 00 00 00 ef be ad de\tr0 = 0xdeadbeefcafef00d ll\n       3:\t95 00 00 00 00 00 00 00\texit\n";
    let got = entries(text);
    assert_eq!(
        got,
        vec![
            (0, vec![0xb7, 0x01, 0, 0, 0x05, 0, 0, 0]),
            (1, vec![0x18, 0, 0, 0, 0x0d, 0xf0, 0xfe, 0xca, 0, 0, 0, 0, 0xef, 0xbe, 0xad, 0xde]),
            (3, vec![0x95, 0, 0, 0, 0, 0, 0, 0]),
        ]
    );
}

#[test]
fn skips_lines_that_are_not_instructions() {
    // no tab, label without colon, non-numeric slot, bad hex, no bytes
    let text = "  5: b7 01\nabc:\tb7\n x:\tb7\n 7:\tzz 01\n 8:\t\n 9 \tb7\n";
    assert_eq!(entries(text), Vec::new());
}

#[test]
fn accepts_crlf_plus_signs_and_unicode_whitespace() {
    let text = " \u{a0}12 :\t+0a  FF\u{2003}7\r\n+3:\t01\n";
    assert_eq!(entries(text), vec![(12, vec![0x0a, 0xff, 0x07]), (3, vec![0x01])]);
}

#[test]
fn rejects_out_of_range_numbers() {
    let text = "1:\t100\n99999999999999999999999:\t01\n-1:\t01\n4:\t+\n";
    assert_eq!(entries(text), Vec::new());
}

#[test]
fn last_line_without_newline_counts() {
    assert_eq!(entries("2:\t00 11"), vec![(2, vec![0x00, 0x11])]);
    assert_eq!(entries(""), Vec::new());
}

use orrel::decode;
use orrel::oracle::{compare_with_objdump, Mismatch};

const TEXT_BYTES: [u8; 32] = [
    0xb7, 0x01, 0x00, 0x00, 0x05, 0x00, 0x00, 0x00,
    0x18, 0x00, 0x00, 0x00, 0x0d, 0xf0, 0xfe, 0xca,
    0x00, 0x00, 0x00, 0x00, 0xef, 0xbe, 0xad, 0xde,
    0x95, 0x00, 0x00, 0x00, 0x00, 0x00, 0x00, 0x00,
];

#[test]
fn decoder_agrees_with_matching_listing() {
    let listing = "       0:\tb7 01 00 00 05 00 00 00\tr1 = 0x5\n       1:\t18 00 00 00 0d f0 fe ca 00 00 00 00 ef be ad de\tr0 = ll\n       3:\t95 00 00 00 00 00 00 00\texit\n";
    let reference = parse_objdump(listing);
    let prog = decode(&TEXT_BYTES).unwrap();
    assert_eq!(compare_with_objdump(&prog, &TEXT_BYTES, &reference), Ok(()));
}

#[test]
fn decoder_disagreements_are_reported() {
    let prog = decode(&TEXT_BYTES).unwrap();

    let short = parse_objdump("0:\tb7 01 00 00 05 00 00 00\n");
    assert_eq!(
        compare_with_objdump(&prog, &TEXT_BYTES, &short),
        Err(Mismatch::InstructionCount { ours: 3, theirs: 1 })
    );

    let slots = parse_objdump("0:\tb7 01 00 00 05 00 00 00\n1:\t18 00 00 00 0d f0 fe ca 00 00 00 00 ef be ad de\n2:\t95 00 00 00 00 00 00 00\n");
    assert_eq!(
        compare_with_objdump(&prog, &TEXT_BYTES, &slots),
        Err(Mismatch::Slot { index: 2, ours: 3, theirs: 2 })
    );

    let bytes = parse_objdump("0:\tb7 01 00 00 05 00 00 00\n1:\t18 00 00 00 0d f0 fe ca 00 00 00 00 ef be ad df\n3:\t95 00 00 00 00 00 00 00\n");
    assert_eq!(
        compare_with_objdump(&prog, &TEXT_BYTES, &bytes),
        Err(Mismatch::Bytes { index: 1, slot: 1, start: 8, end: 24 })
    );
}
