//! Reading the instruction lines of `llvm-objdump -d` output: for each line
//! of the shape `<slot>:<TAB><hex byte> <hex byte> ...[<TAB><disassembly>]`
//! the slot number and the raw bytes.
//!
//! The text is scanned as characters. Lines end at `\n`; a `\r` before it
//! is whitespace and so never changes what a line yields. Whitespace is the
//! Unicode `White_Space` set, as Rust's `char::is_whitespace` has it.

use vstd::prelude::*;

verus! {

broadcast use vstd::string::axiom_spec_iter;

/// One instruction as llvm-objdump reports it: the slot it labels the
/// instruction with, and the raw bytes it prints for that instruction.
pub struct ObjdumpInsn {
    pub slot: usize,
    pub bytes: Vec<u8>,
}

impl View for ObjdumpInsn {
    type V = (usize, Seq<u8>);

    open spec fn view(&self) -> (usize, Seq<u8>) {
        (self.slot, self.bytes@)
    }
}

/// The Unicode `White_Space` characters.
pub open spec fn is_whitespace_spec(c: char) -> bool {
    let u = c as u32;
    ||| 0x09 <= u <= 0x0d
    ||| u == 0x20
    ||| u == 0x85
    ||| u == 0xa0
    ||| u == 0x1680
    ||| 0x2000 <= u <= 0x200a
    ||| u == 0x2028
    ||| u == 0x2029
    ||| u == 0x202f
    ||| u == 0x205f
    ||| u == 0x3000
}

/// The value of `c` as a digit in base `radix` (at most 36): `0`-`9`, then
/// the ASCII letters in either case.
pub open spec fn digit_spec(c: char, radix: u32) -> Option<nat> {
    let u = c as u32;
    let v: int = if 0x30 <= u <= 0x39 {
        u - 0x30
    } else if 0x61 <= u <= 0x7a {
        u - 0x61 + 10
    } else if 0x41 <= u <= 0x5a {
        u - 0x41 + 10
    } else {
        radix as int
    };
    if v < radix {
        Some(v as nat)
    } else {
        None
    }
}

/// The number that the digits `d` write in base `radix`, if each is a digit.
pub open spec fn digits_value(d: Seq<char>, radix: u32) -> Option<nat>
    decreases d.len(),
{
    if d.len() == 0 {
        Some(0)
    } else {
        match (digits_value(d.drop_last(), radix), digit_spec(d.last(), radix)) {
            (Some(v), Some(x)) => Some(v * (radix as nat) + x),
            _ => None,
        }
    }
}

/// An unsigned number in base `radix` as Rust's `from_str_radix` reads it:
/// an optional `+`, then one or more digits; `None` if it is malformed or
/// exceeds `max`.
pub open spec fn parse_unsigned_spec(tok: Seq<char>, radix: u32, max: u64) -> Option<nat> {
    let start: int = if tok.len() > 0 && tok[0] == '+' { 1 } else { 0 };
    if tok.len() <= start {
        None
    } else {
        match digits_value(tok.subrange(start, tok.len() as int), radix) {
            Some(v) => if v <= max { Some(v) } else { None },
            None => None,
        }
    }
}

/// The first index at or after `i` that holds `c`.
pub open spec fn find_from(s: Seq<char>, c: char, i: int) -> Option<int>
    decreases s.len() - i,
{
    if i < 0 || i >= s.len() {
        None
    } else if s[i] == c {
        Some(i)
    } else {
        find_from(s, c, i + 1)
    }
}

/// The first index at or after `i` that holds no whitespace (or the length).
pub open spec fn skip_ws(s: Seq<char>, i: int) -> int
    decreases s.len() - i,
{
    if 0 <= i < s.len() && is_whitespace_spec(s[i]) {
        skip_ws(s, i + 1)
    } else {
        i
    }
}

/// The end of `s.take(j)` once trailing whitespace is dropped.
pub open spec fn end_ws(s: Seq<char>, j: int) -> int
    decreases j,
{
    if 0 < j <= s.len() && is_whitespace_spec(s[j - 1]) {
        end_ws(s, j - 1)
    } else {
        j
    }
}

/// `s` without leading and trailing whitespace.
pub open spec fn trim_spec(s: Seq<char>) -> Seq<char> {
    let t = s.subrange(skip_ws(s, 0), s.len() as int);
    t.subrange(0, end_ws(t, t.len() as int))
}

/// Adds one whitespace-separated token, read as a hex byte, in front of
/// the bytes of the tokens after it; an empty token adds nothing.
pub open spec fn with_hex_token(tok: Seq<char>, rest: Option<Seq<u8>>) -> Option<Seq<u8>> {
    if tok.len() == 0 {
        rest
    } else {
        match (parse_unsigned_spec(tok, 16, 0xff), rest) {
            (Some(b), Some(r)) => Some(seq![b as u8] + r),
            _ => None,
        }
    }
}

/// The bytes written by the whitespace-separated hex tokens of `col` from
/// `i` on, the current token having started at `tok`; `None` if a token is
/// not a hex byte.
pub open spec fn hex_bytes_from(col: Seq<char>, tok: int, i: int) -> Option<Seq<u8>>
    decreases col.len() - i,
{
    if i < 0 || i >= col.len() {
        with_hex_token(col.subrange(tok, i), Some(Seq::empty()))
    } else if is_whitespace_spec(col[i]) {
        with_hex_token(col.subrange(tok, i), hex_bytes_from(col, i + 1, i + 1))
    } else {
        hex_bytes_from(col, tok, i + 1)
    }
}

/// What one line yields: for `<label><TAB><rest>` where the trimmed label
/// ends in `:` and what precedes that `:`, trimmed, is a decimal slot
/// number, the slot and the bytes of the hex tokens of `rest` up to its
/// next tab; nothing if any of that fails or there are no bytes.
pub open spec fn parse_line_spec(line: Seq<char>) -> Option<(usize, Seq<u8>)> {
    match find_from(line, '\t', 0) {
        None => None,
        Some(t) => {
            let label = trim_spec(line.subrange(0, t));
            let rest = line.subrange(t + 1, line.len() as int);
            if label.len() == 0 || label.last() != ':' {
                None
            } else {
                match parse_unsigned_spec(trim_spec(label.drop_last()), 10, usize::MAX as u64) {
                    None => None,
                    Some(slot) => {
                        let col = match find_from(rest, '\t', 0) {
                            Some(t2) => rest.subrange(0, t2),
                            None => rest,
                        };
                        match hex_bytes_from(col, 0, 0) {
                            Some(bytes) => if bytes.len() > 0 {
                                Some((slot as usize, bytes))
                            } else {
                                None
                            },
                            None => None,
                        }
                    },
                }
            }
        },
    }
}

pub open spec fn line_entries(line: Seq<char>) -> Seq<(usize, Seq<u8>)> {
    match parse_line_spec(line) {
        Some(e) => seq![e],
        None => Seq::empty(),
    }
}

/// The entries of the lines of `text` from `i` on, the current line having
/// started at `start`; lines end at `\n`.
pub open spec fn entries_from(text: Seq<char>, start: int, i: int) -> Seq<(usize, Seq<u8>)>
    decreases text.len() - i,
{
    if i < 0 || i >= text.len() {
        line_entries(text.subrange(start, i))
    } else if text[i] == '\n' {
        line_entries(text.subrange(start, i)) + entries_from(text, i + 1, i + 1)
    } else {
        entries_from(text, start, i + 1)
    }
}

/// The instruction lines of `text`, in order.
pub open spec fn parse_objdump_spec(text: Seq<char>) -> Seq<(usize, Seq<u8>)> {
    entries_from(text, 0, 0)
}

fn is_whitespace(c: char) -> (b: bool)
    ensures
        b == is_whitespace_spec(c),
{
    let u = c as u32;
    (0x09 <= u && u <= 0x0d) || u == 0x20 || u == 0x85 || u == 0xa0 || u == 0x1680 || (0x2000 <= u
        && u <= 0x200a) || u == 0x2028 || u == 0x2029 || u == 0x202f || u == 0x205f || u == 0x3000
}

fn digit(c: char, radix: u32) -> (r: Option<u64>)
    requires
        radix <= 36,
    ensures
        r matches Some(v) ==> digit_spec(c, radix) == Some(v as nat),
        r is None ==> digit_spec(c, radix) is None,
{
    let u = c as u32;
    let v: u32 = if 0x30 <= u && u <= 0x39 {
        u - 0x30
    } else if 0x61 <= u && u <= 0x7a {
        u - 0x61 + 10
    } else if 0x41 <= u && u <= 0x5a {
        u - 0x41 + 10
    } else {
        radix
    };
    if v < radix {
        Some(v as u64)
    } else {
        None
    }
}

proof fn lemma_digits_prefix(d: Seq<char>, radix: u32, k: int)
    requires
        0 <= k <= d.len(),
        1 <= radix,
        digits_value(d, radix) is Some,
    ensures
        digits_value(d.take(k), radix) is Some,
        digits_value(d.take(k), radix).unwrap() <= digits_value(d, radix).unwrap(),
    decreases d.len(),
{
    if k == d.len() {
        assert(d.take(k) =~= d);
    } else {
        let p = d.drop_last();
        lemma_digits_prefix(p, radix, k);
        assert(p.take(k) =~= d.take(k));
        let v = digits_value(p, radix).unwrap();
        assert(v * radix >= v) by (nonlinear_arith)
            requires
                radix >= 1,
        ;
    }
}

/// Reads an unsigned number in base `radix` not above `max`.
fn parse_unsigned(tok: &[char], radix: u32, max: u64) -> (r: Option<u64>)
    requires
        2 <= radix <= 36,
    ensures
        r matches Some(v) ==> parse_unsigned_spec(tok@, radix, max) == Some(v as nat),
        r is None ==> parse_unsigned_spec(tok@, radix, max) is None,
{
    let start: usize = if tok.len() > 0 && tok[0] == '+' { 1 } else { 0 };
    if tok.len() <= start {
        return None;
    }
    let ghost body = tok@.subrange(start as int, tok@.len() as int);
    let mut value: u64 = 0;
    let mut i: usize = start;
    assert(body.take(0) =~= Seq::<char>::empty());
    while i < tok.len()
        invariant
            start <= i <= tok@.len(),
            start < tok@.len(),
            start == (if tok@.len() > 0 && tok@[0] == '+' { 1int } else { 0int }),
            2 <= radix <= 36,
            body == tok@.subrange(start as int, tok@.len() as int),
            digits_value(body.take(i - start), radix) == Some(value as nat),
            value <= max,
        decreases tok@.len() - i,
    {
        let ghost k = i - start;
        assert(body.take(k + 1).drop_last() =~= body.take(k));
        assert(body.take(k + 1).last() == tok@[i as int]);
        let x = match digit(tok[i], radix) {
            Some(x) => x,
            None => {
                proof {
                    assert(digits_value(body.take(k + 1), radix) is None);
                    if digits_value(body, radix) is Some {
                        lemma_digits_prefix(body, radix, k + 1);
                    }
                }
                return None;
            },
        };
        let next = match value.checked_mul(radix as u64) {
            Some(m) => m.checked_add(x),
            None => None,
        };
        match next {
            Some(n) if n <= max => {
                value = n;
            },
            _ => {
                proof {
                    assert(digits_value(body.take(k + 1), radix) == Some(
                        value as nat * (radix as nat) + x as nat,
                    ));
                    assert(value as nat * (radix as nat) + x as nat > max);
                    if digits_value(body, radix) is Some {
                        lemma_digits_prefix(body, radix, k + 1);
                    }
                }
                return None;
            },
        }
        i = i + 1;
    }
    assert(body.take(i - start) =~= body);
    Some(value)
}

proof fn lemma_find_from_bounds(s: Seq<char>, c: char, i: int)
    ensures
        find_from(s, c, i) matches Some(k) ==> i <= k < s.len() && s[k] == c,
    decreases s.len() - i,
{
    if 0 <= i < s.len() && s[i] != c {
        lemma_find_from_bounds(s, c, i + 1);
    }
}

fn find(s: &[char], c: char) -> (r: Option<usize>)
    ensures
        r matches Some(k) ==> find_from(s@, c, 0) == Some(k as int),
        r is None ==> find_from(s@, c, 0) is None,
{
    let mut i: usize = 0;
    while i < s.len()
        invariant
            i <= s@.len(),
            find_from(s@, c, 0) == find_from(s@, c, i as int),
        decreases s@.len() - i,
    {
        if s[i] == c {
            return Some(i);
        }
        i = i + 1;
    }
    None
}

proof fn lemma_skip_ws_bounds(s: Seq<char>, i: int)
    requires
        0 <= i <= s.len(),
    ensures
        i <= skip_ws(s, i) <= s.len(),
    decreases s.len() - i,
{
    if i < s.len() && is_whitespace_spec(s[i]) {
        lemma_skip_ws_bounds(s, i + 1);
    }
}

proof fn lemma_end_ws_bounds(s: Seq<char>, j: int)
    requires
        0 <= j <= s.len(),
    ensures
        0 <= end_ws(s, j) <= j,
    decreases j,
{
    if 0 < j && is_whitespace_spec(s[j - 1]) {
        lemma_end_ws_bounds(s, j - 1);
    }
}

/// `s` without leading and trailing whitespace.
fn trim(s: &[char]) -> (r: &[char])
    ensures
        r@ == trim_spec(s@),
{
    let mut a: usize = 0;
    while a < s.len() && is_whitespace(s[a])
        invariant
            a <= s@.len(),
            skip_ws(s@, 0) == skip_ws(s@, a as int),
        decreases s@.len() - a,
    {
        a = a + 1;
    }
    let t = vstd::slice::slice_subrange(s, a, s.len());
    let mut b: usize = t.len();
    while b > 0 && is_whitespace(t[b - 1])
        invariant
            b <= t@.len(),
            end_ws(t@, t@.len() as int) == end_ws(t@, b as int),
        decreases b,
    {
        b = b - 1;
    }
    vstd::slice::slice_subrange(t, 0, b)
}

/// Reads the whitespace-separated hex bytes of `col`.
fn hex_bytes(col: &[char]) -> (r: Option<Vec<u8>>)
    ensures
        r matches Some(v) ==> hex_bytes_from(col@, 0, 0) == Some(v@),
        r is None ==> hex_bytes_from(col@, 0, 0) is None,
{
    let mut out: Vec<u8> = Vec::new();
    let mut tok: usize = 0;
    let mut i: usize = 0;
    while i < col.len()
        invariant
            tok <= i <= col@.len(),
            hex_bytes_from(col@, 0, 0) == (match hex_bytes_from(col@, tok as int, i as int) {
                Some(rest) => Some(out@ + rest),
                None => None::<Seq<u8>>,
            }),
        decreases col@.len() - i,
    {
        if is_whitespace(col[i]) {
            if tok < i {
                let t = vstd::slice::slice_subrange(col, tok, i);
                match parse_unsigned(t, 16, 0xff) {
                    Some(b) => {
                        proof {
                            let rest = hex_bytes_from(col@, i + 1, i + 1);
                            if let Some(r) = rest {
                                assert(out@ + (seq![b as u8] + r) =~= out@.push(b as u8) + r);
                            }
                        }
                        out.push(b as u8);
                    },
                    None => {
                        return None;
                    },
                }
            } else {
                assert(col@.subrange(tok as int, i as int) =~= Seq::<char>::empty());
            }
            tok = i + 1;
        }
        i = i + 1;
    }
    if tok < i {
        let t = vstd::slice::slice_subrange(col, tok, i);
        match parse_unsigned(t, 16, 0xff) {
            Some(b) => {
                assert(out@ + (seq![b as u8] + Seq::<u8>::empty()) =~= out@.push(b as u8));
                out.push(b as u8);
            },
            None => {
                return None;
            },
        }
    } else {
        assert(col@.subrange(tok as int, i as int) =~= Seq::<char>::empty());
        assert(out@ + Seq::<u8>::empty() =~= out@);
    }
    Some(out)
}

/// What one line yields (see `parse_line_spec`).
fn parse_line(line: &[char]) -> (r: Option<ObjdumpInsn>)
    ensures
        r matches Some(e) ==> parse_line_spec(line@) == Some(e@),
        r is None ==> parse_line_spec(line@) is None,
{
    let t = match find(line, '\t') {
        Some(t) => t,
        None => return None,
    };
    proof {
        lemma_find_from_bounds(line@, '\t', 0);
    }
    assert(t < line.len());
    let label = trim(vstd::slice::slice_subrange(line, 0, t));
    let rest = vstd::slice::slice_subrange(line, t + 1, line.len());
    if label.len() == 0 || label[label.len() - 1] != ':' {
        return None;
    }
    let slot_str = trim(vstd::slice::slice_subrange(label, 0, label.len() - 1));
    assert(label@.drop_last() =~= label@.subrange(0, label@.len() - 1));
    let slot = match parse_unsigned(slot_str, 10, usize::MAX as u64) {
        Some(v) => v as usize,
        None => return None,
    };
    proof {
        lemma_find_from_bounds(rest@, '\t', 0);
    }
    let col = match find(rest, '\t') {
        Some(t2) => vstd::slice::slice_subrange(rest, 0, t2),
        None => rest,
    };
    let bytes = match hex_bytes(col) {
        Some(b) => b,
        None => return None,
    };
    if bytes.len() == 0 {
        return None;
    }
    Some(ObjdumpInsn { slot, bytes })
}

/// Parse `llvm-objdump -d` output into the instruction lines. Each instruction line
/// has the shape: whitespace, decimal slot, ':', tab, space-separated hex byte pairs,
/// tab, disassembly text. Rest is skipped.
pub fn parse_objdump(text: &str) -> (out: Vec<ObjdumpInsn>)
    ensures
        out@.map_values(|e: ObjdumpInsn| e@) == parse_objdump_spec(text@),
{
    let mut chars: Vec<char> = Vec::new();
    for c in it: text.chars()
        invariant
            chars@ == it.seq().take(it.index() as int),
    {
        chars.push(c);
    }
    assert(chars@ =~= text@);
    let s = chars.as_slice();
    let mut out: Vec<ObjdumpInsn> = Vec::new();
    let mut start: usize = 0;
    let mut i: usize = 0;
    while i < s.len()
        invariant
            start <= i <= s@.len(),
            s@ == text@,
            parse_objdump_spec(text@) == out@.map_values(|e: ObjdumpInsn| e@) + entries_from(
                s@,
                start as int,
                i as int,
            ),
        decreases s@.len() - i,
    {
        if s[i] == '\n' {
            let line = vstd::slice::slice_subrange(s, start, i);
            let ghost before = out@.map_values(|e: ObjdumpInsn| e@);
            let ghost tail = entries_from(s@, i + 1, i + 1);
            match parse_line(line) {
                Some(e) => {
                    out.push(e);
                    assert(out@.map_values(|e: ObjdumpInsn| e@) =~= before.push(e@));
                    assert(before + (seq![e@] + tail) =~= before.push(e@) + tail);
                },
                None => {
                    assert(before + (Seq::<(usize, Seq<u8>)>::empty() + tail) =~= before + tail);
                },
            }
            start = i + 1;
        }
        i = i + 1;
    }
    let line = vstd::slice::slice_subrange(s, start, i);
    let ghost before = out@.map_values(|e: ObjdumpInsn| e@);
    match parse_line(line) {
        Some(e) => {
            out.push(e);
            assert(out@.map_values(|e: ObjdumpInsn| e@) =~= before.push(e@));
            assert(before + seq![e@] =~= before.push(e@));
        },
        None => {
            assert(before + Seq::<(usize, Seq<u8>)>::empty() =~= before);
        },
    }
    out
}

} // verus!
