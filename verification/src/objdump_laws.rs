//! What the listing reader makes of a listing: the line that llvm-objdump
//! prints for an instruction gives back exactly the slot number and the
//! bytes it was printed from, a line without a tab gives nothing, and a
//! listing is read one line at a time.

use vstd::prelude::*;
use crate::objdump::{
    digit_spec, digits_value, end_ws, entries_from, find_from, hex_bytes_from, is_whitespace_spec,
    line_entries, parse_line_spec, parse_objdump_spec, parse_unsigned_spec, skip_ws, trim_spec,
};

verus! {

/// The character that writes the digit `d` (below sixteen): `0`-`9`, then
/// `a`-`f`, or `A`-`F` when `upper`.
pub open spec fn digit_char(d: nat, upper: bool) -> char {
    if d < 10 {
        (0x30 + d) as char
    } else if upper {
        (0x41 + d - 10) as char
    } else {
        (0x61 + d - 10) as char
    }
}

proof fn lemma_digit_char(d: nat, radix: u32, upper: bool)
    requires
        d < radix,
        radix == 10 || radix == 16,
    ensures
        digit_spec(digit_char(d, upper), radix) == Some(d),
        !is_whitespace_spec(digit_char(d, upper)),
        digit_char(d, upper) != '+',
        digit_char(d, upper) != ':',
        digit_char(d, upper) != '\t',
        digit_char(d, upper) != '\n',
{
}

/// `n` in decimal, most significant digit first, without leading zeros.
pub open spec fn decimal(n: nat) -> Seq<char>
    decreases n,
{
    if n < 10 {
        seq![digit_char(n, false)]
    } else {
        decimal(n / 10).push(digit_char(n % 10, false))
    }
}

/// The byte `x` as two hex digits, in upper case when `upper`.
pub open spec fn hex_byte_text(x: u8, upper: bool) -> Seq<char> {
    seq![digit_char(x as nat / 16, upper), digit_char(x as nat % 16, upper)]
}

/// The bytes `b` as two-digit hex numbers separated by single spaces.
pub open spec fn hex_bytes_text(b: Seq<u8>, upper: bool) -> Seq<char>
    decreases b.len(),
{
    if b.len() == 0 {
        Seq::empty()
    } else if b.len() == 1 {
        hex_byte_text(b[0], upper)
    } else {
        hex_byte_text(b[0], upper) + seq![' '] + hex_bytes_text(b.drop_first(), upper)
    }
}

/// A character that can stand in a digit string: none of whitespace, `+`,
/// `:` or a line break.
spec fn plain(c: char) -> bool {
    !is_whitespace_spec(c) && c != '+' && c != ':' && c != '\t' && c != '\n'
}

proof fn lemma_decimal(n: nat)
    ensures
        decimal(n).len() > 0,
        digits_value(decimal(n), 10) == Some(n),
        forall|i: int| 0 <= i < decimal(n).len() ==> plain(#[trigger] decimal(n)[i]),
    decreases n,
{
    if n < 10 {
        lemma_digit_char(n, 10, false);
        assert(decimal(n).drop_last() =~= Seq::<char>::empty());
        assert(digits_value(Seq::<char>::empty(), 10) == Some(0nat));
    } else {
        lemma_decimal(n / 10);
        lemma_digit_char(n % 10, 10, false);
        assert(decimal(n).drop_last() =~= decimal(n / 10));
        assert(decimal(n).last() == digit_char(n % 10, false));
        assert(digits_value(decimal(n), 10) == Some((n / 10) * 10 + n % 10));
    }
}

proof fn lemma_hex_byte(x: u8, upper: bool)
    ensures
        parse_unsigned_spec(hex_byte_text(x, upper), 16, 0xff) == Some(x as nat),
        forall|i: int| 0 <= i < 2 ==> plain(#[trigger] hex_byte_text(x, upper)[i]),
{
    let t = hex_byte_text(x, upper);
    lemma_digit_char(x as nat / 16, 16, upper);
    lemma_digit_char(x as nat % 16, 16, upper);
    assert(t.subrange(0, 2) =~= t);
    assert(t.drop_last() =~= seq![t[0]]);
    assert(seq![t[0]].drop_last() =~= Seq::<char>::empty());
    assert(digits_value(Seq::<char>::empty(), 16) == Some(0nat));
    assert(digits_value(seq![t[0]], 16) == Some(x as nat / 16));
    assert(digits_value(t, 16) == Some((x as nat / 16) * 16 + x as nat % 16));
}

proof fn lemma_hex_bytes_shift(p: Seq<char>, s: Seq<char>, tok: int, i: int)
    requires
        0 <= tok <= i <= s.len(),
    ensures
        hex_bytes_from(p + s, p.len() + tok, p.len() + i) == hex_bytes_from(s, tok, i),
    decreases s.len() - i,
{
    let c = p + s;
    assert(c.subrange(p.len() + tok, p.len() + i) =~= s.subrange(tok, i));
    if i < s.len() {
        assert(c[p.len() + i] == s[i]);
        if is_whitespace_spec(s[i]) {
            lemma_hex_bytes_shift(p, s, i + 1, i + 1);
        } else {
            lemma_hex_bytes_shift(p, s, tok, i + 1);
        }
    }
}

proof fn lemma_hex_bytes_text(b: Seq<u8>, upper: bool)
    requires
        b.len() > 0,
    ensures
        hex_bytes_from(hex_bytes_text(b, upper), 0, 0) == Some(b),
        forall|i: int|
            0 <= i < hex_bytes_text(b, upper).len() ==> #[trigger] hex_bytes_text(b, upper)[i]
                != '\t' && hex_bytes_text(b, upper)[i] != '\n',
    decreases b.len(),
{
    let hb = hex_byte_text(b[0], upper);
    let t = hex_bytes_text(b, upper);
    lemma_hex_byte(b[0], upper);
    assert(!is_whitespace_spec(hb[0]) && !is_whitespace_spec(hb[1]));
    if b.len() == 1 {
        assert(t.subrange(0, 2) =~= hb);
        assert(hex_bytes_from(t, 0, 2) == Some(seq![b[0]] + Seq::<u8>::empty()));
        assert(hex_bytes_from(t, 0, 1) == hex_bytes_from(t, 0, 2));
        assert(seq![b[0]] + Seq::<u8>::empty() =~= b);
    } else {
        let rest = b.drop_first();
        let p = hb + seq![' '];
        lemma_hex_bytes_text(rest, upper);
        lemma_hex_bytes_shift(p, hex_bytes_text(rest, upper), 0, 0);
        assert(t =~= p + hex_bytes_text(rest, upper));
        assert(t[2] == ' ');
        assert(t.subrange(0, 2) =~= hb);
        assert(hex_bytes_from(t, 0, 2) == Some(seq![b[0]] + rest));
        assert(hex_bytes_from(t, 0, 1) == hex_bytes_from(t, 0, 2));
        assert(seq![b[0]] + rest =~= b);
        assert forall|i: int| 0 <= i < t.len() implies #[trigger] t[i] != '\t' && t[i] != '\n' by {
            if i >= 3 {
                assert(t[i] == hex_bytes_text(rest, upper)[i - 3]);
            }
        }
    }
}

/// The line llvm-objdump prints for an instruction: indentation, the slot
/// number, `:`, a tab, the bytes in hex (in upper case when `upper`), then
/// `tail` (nothing, or a tab and the disassembly).
pub open spec fn instruction_line(
    indent: Seq<char>,
    slot: nat,
    bytes: Seq<u8>,
    upper: bool,
    tail: Seq<char>,
) -> Seq<char> {
    indent + decimal(slot) + seq![':', '\t'] + hex_bytes_text(bytes, upper) + tail
}

proof fn lemma_find_skip(s: Seq<char>, c: char, i: int, k: int)
    requires
        0 <= i <= k <= s.len(),
        forall|j: int| i <= j < k ==> #[trigger] s[j] != c,
    ensures
        find_from(s, c, i) == find_from(s, c, k),
    decreases k - i,
{
    if i < k {
        lemma_find_skip(s, c, i + 1, k);
    }
}

proof fn lemma_skip_ws_skip(s: Seq<char>, i: int, k: int)
    requires
        0 <= i <= k <= s.len(),
        forall|j: int| i <= j < k ==> is_whitespace_spec(#[trigger] s[j]),
    ensures
        skip_ws(s, i) == skip_ws(s, k),
    decreases k - i,
{
    if i < k {
        lemma_skip_ws_skip(s, i + 1, k);
    }
}

proof fn lemma_entries_skip(text: Seq<char>, start: int, i: int, k: int)
    requires
        0 <= i <= k <= text.len(),
        forall|j: int| i <= j < k ==> #[trigger] text[j] != '\n',
    ensures
        entries_from(text, start, i) == entries_from(text, start, k),
    decreases k - i,
{
    if i < k {
        lemma_entries_skip(text, start, i + 1, k);
    }
}

/// Text without whitespace at either end is its own trim.
proof fn lemma_trim_plain(s: Seq<char>)
    requires
        s.len() > 0,
        !is_whitespace_spec(s[0]),
        !is_whitespace_spec(s.last()),
    ensures
        trim_spec(s) == s,
{
    assert(s.subrange(0, s.len() as int) =~= s);
}

/// A line of the shape llvm-objdump prints for an instruction yields that
/// instruction's slot and bytes.
proof fn lemma_instruction_line_parses(
    indent: Seq<char>,
    slot: usize,
    bytes: Seq<u8>,
    upper: bool,
    tail: Seq<char>,
)
    requires
        forall|i: int| 0 <= i < indent.len() ==> #[trigger] indent[i] == ' ',
        bytes.len() > 0,
        tail.len() == 0 || tail[0] == '\t',
    ensures
        parse_line_spec(instruction_line(indent, slot as nat, bytes, upper, tail)) == Some((slot, bytes)),
{
    let dec = decimal(slot as nat);
    let ht = hex_bytes_text(bytes, upper);
    let line = instruction_line(indent, slot as nat, bytes, upper, tail);
    let a = indent.len() as int;
    let d = dec.len() as int;
    let t = a + d + 1;
    lemma_decimal(slot as nat);
    lemma_hex_bytes_text(bytes, upper);

    // The first tab ends the label.
    assert forall|j: int| 0 <= j < t implies #[trigger] line[j] != '\t' by {
        if j < a {
            assert(line[j] == indent[j]);
        } else if j < a + d {
            assert(line[j] == dec[j - a]);
        } else {
            assert(line[j] == ':');
        }
    }
    lemma_find_skip(line, '\t', 0, t);
    assert(line[t] == '\t');
    assert(find_from(line, '\t', 0) == Some(t));

    // The label trims to the slot number and its colon.
    let raw = line.subrange(0, t);
    assert(raw =~= indent + dec + seq![':']);
    lemma_skip_ws_skip(raw, 0, a);
    assert(raw[a] == dec[0]);
    assert(skip_ws(raw, 0) == a);
    let lab = raw.subrange(a, raw.len() as int);
    assert(lab =~= dec.push(':'));
    assert(end_ws(lab, lab.len() as int) == lab.len());
    assert(lab.subrange(0, lab.len() as int) =~= lab);
    let label = trim_spec(raw);
    assert(label == dec.push(':'));
    assert(label.drop_last() =~= dec);
    lemma_trim_plain(dec);
    assert(dec.subrange(0, d) =~= dec);
    assert(parse_unsigned_spec(dec, 10, usize::MAX as u64) == Some(slot as nat));

    // The hex column runs to the next tab, or to the end.
    let rest = line.subrange(t + 1, line.len() as int);
    assert(rest =~= ht + tail);
    lemma_find_skip(rest, '\t', 0, ht.len() as int);
    if tail.len() == 0 {
        assert(find_from(rest, '\t', 0) is None);
        assert(rest =~= ht);
    } else {
        assert(rest[ht.len() as int] == '\t');
        assert(find_from(rest, '\t', 0) == Some(ht.len() as int));
        assert(rest.subrange(0, ht.len() as int) =~= ht);
    }
}

/// Every instruction line that llvm-objdump prints is read back as exactly
/// one instruction, with the slot number and the bytes it was printed from:
/// for any indentation made of spaces, every slot number that fits in
/// `usize`, one or more bytes with their hex digits in either case, and
/// either nothing or a tab and the disassembly after the bytes, whether or
/// not a line break closes the line.
pub proof fn lemma_instruction_line_read_back(
    indent: Seq<char>,
    slot: usize,
    bytes: Seq<u8>,
    upper: bool,
    tail: Seq<char>,
)
    requires
        forall|i: int| 0 <= i < indent.len() ==> #[trigger] indent[i] == ' ',
        bytes.len() > 0,
        tail.len() == 0 || tail[0] == '\t',
        forall|i: int| 0 <= i < tail.len() ==> #[trigger] tail[i] != '\n',
    ensures
        parse_objdump_spec(instruction_line(indent, slot as nat, bytes, upper, tail)) == seq![
            (slot, bytes),
        ],
        parse_objdump_spec(instruction_line(indent, slot as nat, bytes, upper, tail).push('\n'))
            == seq![(slot, bytes)],
{
    let dec = decimal(slot as nat);
    let ht = hex_bytes_text(bytes, upper);
    let line = instruction_line(indent, slot as nat, bytes, upper, tail);
    let n = line.len() as int;
    let a = indent.len() as int;
    let d = dec.len() as int;
    let h = ht.len() as int;
    lemma_decimal(slot as nat);
    lemma_hex_bytes_text(bytes, upper);
    lemma_instruction_line_parses(indent, slot, bytes, upper, tail);
    assert forall|j: int| 0 <= j < n implies #[trigger] line[j] != '\n' by {
        if j < a {
            assert(line[j] == indent[j]);
        } else if j < a + d {
            assert(line[j] == dec[j - a]);
        } else if j < a + d + 2 {
        } else if j < a + d + 2 + h {
            assert(line[j] == ht[j - (a + d + 2)]);
        } else {
            assert(line[j] == tail[j - (a + d + 2 + h)]);
        }
    }
    let e = seq![(slot, bytes)];
    assert(line_entries(line) == e);

    lemma_entries_skip(line, 0, 0, n);
    assert(line.subrange(0, n) =~= line);

    let text = line.push('\n');
    assert forall|j: int| 0 <= j < n implies #[trigger] text[j] != '\n' by {
        assert(text[j] == line[j]);
    }
    lemma_entries_skip(text, 0, 0, n);
    assert(text.subrange(0, n) =~= line);
    assert(text.subrange(n + 1, n + 1) =~= Seq::<char>::empty());
    assert(line_entries(Seq::<char>::empty()) =~= Seq::<(usize, Seq<u8>)>::empty());
    assert(entries_from(text, n + 1, n + 1) == line_entries(Seq::<char>::empty()));
    assert(text[n] == '\n');
    assert(entries_from(text, 0, n) == line_entries(line) + entries_from(text, n + 1, n + 1));
    assert(e + Seq::<(usize, Seq<u8>)>::empty() =~= e);
}

proof fn lemma_entries_shift(p: Seq<char>, b: Seq<char>, start: int, i: int)
    requires
        0 <= start <= i <= b.len(),
    ensures
        entries_from(p + b, p.len() + start, p.len() + i) == entries_from(b, start, i),
    decreases b.len() - i,
{
    let t = p + b;
    assert(t.subrange(p.len() + start, p.len() + i) =~= b.subrange(start, i));
    if i < b.len() {
        assert(t[p.len() + i] == b[i]);
        if b[i] == '\n' {
            lemma_entries_shift(p, b, i + 1, i + 1);
        } else {
            lemma_entries_shift(p, b, start, i + 1);
        }
    }
}

proof fn lemma_entries_join(a: Seq<char>, b: Seq<char>, start: int, i: int)
    requires
        0 <= start <= i <= a.len(),
    ensures
        entries_from(a + seq!['\n'] + b, start, i) == entries_from(a, start, i) + parse_objdump_spec(b),
    decreases a.len() - i,
{
    let t = a + seq!['\n'] + b;
    let rest = parse_objdump_spec(b);
    assert(t.subrange(start, i) =~= a.subrange(start, i));
    if i == a.len() {
        assert(t[i] == '\n');
        let p = a + seq!['\n'];
        assert(t =~= p + b);
        lemma_entries_shift(p, b, 0, 0);
    } else {
        assert(t[i] == a[i]);
        if a[i] == '\n' {
            lemma_entries_join(a, b, i + 1, i + 1);
            let first = line_entries(a.subrange(start, i));
            assert(first + (entries_from(a, i + 1, i + 1) + rest) =~= first + entries_from(
                a,
                i + 1,
                i + 1,
            ) + rest);
        } else {
            lemma_entries_join(a, b, start, i + 1);
        }
    }
}

/// A listing is read line by line: two texts joined by a line break give
/// the entries of the first followed by those of the second.
pub proof fn lemma_listing_lines_concatenate(a: Seq<char>, b: Seq<char>)
    ensures
        parse_objdump_spec(a + seq!['\n'] + b) == parse_objdump_spec(a) + parse_objdump_spec(b),
{
    lemma_entries_join(a, b, 0, 0);
}

/// A line without a tab, such as a section header, a label or a blank
/// line, yields no instruction.
pub proof fn lemma_line_without_tab_is_skipped(line: Seq<char>)
    requires
        forall|i: int| 0 <= i < line.len() ==> #[trigger] line[i] != '\t' && line[i] != '\n',
    ensures
        parse_objdump_spec(line) == Seq::<(usize, Seq<u8>)>::empty(),
{
    let n = line.len() as int;
    lemma_find_skip(line, '\t', 0, n);
    lemma_entries_skip(line, 0, 0, n);
    assert(line.subrange(0, n) =~= line);
}

} // verus!
