//! The differential check of a decoded program against llvm-objdump's
//! listing of the same bytes: both must agree on the number of
//! instructions, and instruction by instruction on the slot number and on
//! the raw bytes.

use vstd::prelude::*;
use crate::insn::{Insn, DecoderError, decode_spec};
use crate::objdump::ObjdumpInsn;
use crate::stream_laws::{total_slots, lemma_slot_accounting, lemma_total_slots_prefix};

verus! {

/// The first disagreement between the decoder and the reference listing.
#[derive(Debug, Clone, Copy, PartialEq, Eq, Structural)]
pub enum Mismatch {
    /// The two list different numbers of instructions.
    InstructionCount { ours: usize, theirs: usize },
    /// Instruction `index` carries different slot numbers.
    Slot { index: usize, ours: usize, theirs: usize },
    /// Instruction `index`, at `slot`, spans the bytes `start..end` of the
    /// stream, which differ from the listed bytes.
    Bytes { index: usize, slot: usize, start: usize, end: usize },
}

/// The first disagreement from instruction `k` on, its bytes starting at
/// `cursor`.
pub open spec fn mismatch_from(
    prog: Seq<Insn>,
    bytes: Seq<u8>,
    reference: Seq<(usize, Seq<u8>)>,
    k: int,
    cursor: int,
) -> Option<Mismatch>
    decreases prog.len() - k,
{
    if k < 0 || k >= prog.len() {
        None
    } else if prog[k].slot != reference[k].0 {
        Some(Mismatch::Slot { index: k as usize, ours: prog[k].slot, theirs: reference[k].0 })
    } else {
        let end = cursor + 8 * prog[k].slots;
        if bytes.subrange(cursor, end) != reference[k].1 {
            Some(
                Mismatch::Bytes {
                    index: k as usize,
                    slot: prog[k].slot,
                    start: cursor as usize,
                    end: end as usize,
                },
            )
        } else {
            mismatch_from(prog, bytes, reference, k + 1, end)
        }
    }
}

/// The first disagreement between `prog`, decoded from `bytes`, and the
/// reference listing, if any.
pub open spec fn first_mismatch(prog: Seq<Insn>, bytes: Seq<u8>, reference: Seq<(usize, Seq<u8>)>) -> Option<Mismatch> {
    if prog.len() != reference.len() {
        Some(Mismatch::InstructionCount { ours: prog.len() as usize, theirs: reference.len() as usize })
    } else {
        mismatch_from(prog, bytes, reference, 0, 0)
    }
}

/// The decoder and the listing agree: the same number of instructions and,
/// for each, the same slot number and the same raw bytes, those of the
/// instruction's slots in the stream.
pub open spec fn agrees_with(prog: Seq<Insn>, bytes: Seq<u8>, reference: Seq<(usize, Seq<u8>)>) -> bool {
    &&& prog.len() == reference.len()
    &&& forall|k: int|
        0 <= k < prog.len() ==> (#[trigger] prog[k]).slot == reference[k].0 && bytes.subrange(
            8 * prog[k].slot,
            8 * (prog[k].slot + prog[k].slots),
        ) == reference[k].1
}

/// Instruction `k` agrees with entry `k` of the listing: the same slot
/// number, and the listed bytes are those of the instruction's slots.
pub open spec fn agrees_at(prog: Seq<Insn>, bytes: Seq<u8>, reference: Seq<(usize, Seq<u8>)>, k: int) -> bool {
    prog[k].slot == reference[k].0 && bytes.subrange(
        8 * prog[k].slot,
        8 * (prog[k].slot + prog[k].slots),
    ) == reference[k].1
}

proof fn lemma_mismatch_from(
    prog: Seq<Insn>,
    bytes: Seq<u8>,
    reference: Seq<(usize, Seq<u8>)>,
    k: int,
    cursor: int,
)
    requires
        0 <= k <= prog.len(),
        prog.len() == reference.len(),
        prog.len() <= usize::MAX,
        8 * total_slots(prog) == bytes.len(),
        bytes.len() <= usize::MAX,
        cursor == 8 * total_slots(prog.take(k)),
        forall|m: int| 0 <= m < prog.len() ==> (#[trigger] prog[m]).slot == total_slots(prog.take(m)),
    ensures
        mismatch_from(prog, bytes, reference, k, cursor) is None <==> forall|m: int|
            k <= m < prog.len() ==> agrees_at(prog, bytes, reference, m),
        match mismatch_from(prog, bytes, reference, k, cursor) {
            Some(Mismatch::Slot { index, ours, theirs }) => {
                &&& k <= index < prog.len()
                &&& ours == prog[index as int].slot
                &&& theirs == reference[index as int].0
                &&& ours != theirs
                &&& forall|m: int| k <= m < index ==> agrees_at(prog, bytes, reference, m)
            },
            Some(Mismatch::Bytes { index, slot, start, end }) => {
                &&& k <= index < prog.len()
                &&& slot == prog[index as int].slot
                &&& slot == reference[index as int].0
                &&& start == 8 * slot
                &&& end == 8 * (slot + prog[index as int].slots)
                &&& bytes.subrange(start as int, end as int) != reference[index as int].1
                &&& forall|m: int| k <= m < index ==> agrees_at(prog, bytes, reference, m)
            },
            Some(Mismatch::InstructionCount { .. }) => false,
            None => true,
        },
    decreases prog.len() - k,
{
    if k < prog.len() {
        lemma_total_slots_prefix(prog, k);
        let end = cursor + 8 * prog[k].slots;
        if prog[k].slot == reference[k].0 && bytes.subrange(cursor, end) == reference[k].1 {
            lemma_mismatch_from(prog, bytes, reference, k + 1, end);
            assert(agrees_at(prog, bytes, reference, k));
            assert forall|m: int| k <= m < prog.len() && (forall|j: int|
                k + 1 <= j < prog.len() ==> agrees_at(prog, bytes, reference, j)) implies agrees_at(
                prog,
                bytes,
                reference,
                m,
            ) by {}
        } else {
            assert(!agrees_at(prog, bytes, reference, k));
        }
    }
}

/// What the comparison reports is the first disagreement. Nothing is
/// reported exactly when the two agree. A count mismatch carries the two
/// counts. Otherwise the reported instruction is the first on which the two
/// disagree, every instruction before it agreeing: on its slot number (the
/// two numbers carried, and different), or, its slot numbers agreeing, on
/// its bytes, the span `start..end` being exactly the instruction's slots
/// in the stream.
pub proof fn lemma_first_disagreement_reported(
    prog: Seq<Insn>,
    bytes: Seq<u8>,
    reference: Seq<(usize, Seq<u8>)>,
)
    requires
        decode_spec(bytes) == Ok::<Seq<Insn>, DecoderError>(prog),
        bytes.len() <= usize::MAX,
        prog.len() <= usize::MAX,
        reference.len() <= usize::MAX,
    ensures
        first_mismatch(prog, bytes, reference) is None <==> agrees_with(prog, bytes, reference),
        match first_mismatch(prog, bytes, reference) {
            Some(Mismatch::InstructionCount { ours, theirs }) => {
                &&& prog.len() != reference.len()
                &&& ours == prog.len()
                &&& theirs == reference.len()
            },
            Some(Mismatch::Slot { index, ours, theirs }) => {
                &&& prog.len() == reference.len()
                &&& index < prog.len()
                &&& ours == prog[index as int].slot
                &&& theirs == reference[index as int].0
                &&& ours != theirs
                &&& forall|m: int| 0 <= m < index ==> agrees_at(prog, bytes, reference, m)
            },
            Some(Mismatch::Bytes { index, slot, start, end }) => {
                &&& prog.len() == reference.len()
                &&& index < prog.len()
                &&& slot == prog[index as int].slot
                &&& slot == reference[index as int].0
                &&& start == 8 * slot
                &&& end == 8 * (slot + prog[index as int].slots)
                &&& bytes.subrange(start as int, end as int) != reference[index as int].1
                &&& forall|m: int| 0 <= m < index ==> agrees_at(prog, bytes, reference, m)
            },
            None => true,
        },
{
    lemma_slot_accounting(bytes, prog);
    if prog.len() == reference.len() {
        assert(prog.take(0) =~= Seq::<Insn>::empty());
        assert(total_slots(Seq::<Insn>::empty()) == 0);
        lemma_mismatch_from(prog, bytes, reference, 0, 0);
        if agrees_with(prog, bytes, reference) {
            assert forall|m: int| 0 <= m < prog.len() implies agrees_at(prog, bytes, reference, m) by {
                assert(prog[m] == prog[m]);
            }
        }
        if forall|m: int| 0 <= m < prog.len() ==> agrees_at(prog, bytes, reference, m) {
            assert forall|k: int| 0 <= k < prog.len() implies (#[trigger] prog[k]).slot
                == reference[k].0 && bytes.subrange(8 * prog[k].slot, 8 * (prog[k].slot + prog[k].slots))
                == reference[k].1 by {
                assert(agrees_at(prog, bytes, reference, k));
            }
        }
    }
}

fn same_bytes(a: &[u8], start: usize, end: usize, b: &Vec<u8>) -> (r: bool)
    requires
        start <= end <= a@.len(),
    ensures
        r == (a@.subrange(start as int, end as int) == b@),
{
    if end - start != b.len() {
        assert(a@.subrange(start as int, end as int).len() != b@.len());
        return false;
    }
    let mut j: usize = 0;
    while j < b.len()
        invariant
            start <= end <= a@.len(),
            end - start == b@.len(),
            j <= b@.len(),
            forall|m: int| 0 <= m < j ==> a@[start + m] == b@[m],
        decreases b@.len() - j,
    {
        if a[start + j] != b[j] {
            assert(a@.subrange(start as int, end as int)[j as int] != b@[j as int]);
            return false;
        }
        j = j + 1;
    }
    assert(a@.subrange(start as int, end as int) =~= b@);
    true
}

/// Compares the program decoded from `bytes` with llvm-objdump's listing.
pub fn compare_with_objdump(prog: &[Insn], bytes: &[u8], reference: &[ObjdumpInsn]) -> (r: Result<(), Mismatch>)
    requires
        decode_spec(bytes@) == Ok::<Seq<Insn>, DecoderError>(prog@),
    ensures
        r == (match first_mismatch(prog@, bytes@, reference@.map_values(|e: ObjdumpInsn| e@)) {
            Some(m) => Err::<(), Mismatch>(m),
            None => Ok(()),
        }),
        r is Ok <==> agrees_with(prog@, bytes@, reference@.map_values(|e: ObjdumpInsn| e@)),
{
    let ghost refs = reference@.map_values(|e: ObjdumpInsn| e@);
    if prog.len() != reference.len() {
        assert(!agrees_with(prog@, bytes@, refs));
        return Err(Mismatch::InstructionCount { ours: prog.len(), theirs: reference.len() });
    }
    let n = bytes.len();
    proof {
        lemma_slot_accounting(bytes@, prog@);
    }
    let mut k: usize = 0;
    let mut cursor: usize = 0;
    assert(prog@.take(0) =~= Seq::<Insn>::empty());
    while k < prog.len()
        invariant
            prog@.len() == refs.len(),
            refs == reference@.map_values(|e: ObjdumpInsn| e@),
            k <= prog@.len(),
            n == bytes@.len(),
            cursor == 8 * total_slots(prog@.take(k as int)),
            8 * total_slots(prog@) == bytes@.len(),
            forall|m: int| 0 <= m < prog@.len() ==> (#[trigger] prog@[m]).slots == 1 || prog@[m].slots == 2,
            mismatch_from(prog@, bytes@, refs, 0, 0) == mismatch_from(prog@, bytes@, refs, k as int, cursor as int),
            forall|m: int| 0 <= m < prog@.len() ==> (#[trigger] prog@[m]).slot == total_slots(prog@.take(m)),
            forall|m: int|
                0 <= m < k ==> (#[trigger] prog@[m]).slot == refs[m].0 && bytes@.subrange(
                    8 * prog@[m].slot,
                    8 * (prog@[m].slot + prog@[m].slots),
                ) == refs[m].1,
        decreases prog@.len() - k,
    {
        let ins = &prog[k];
        let entry = &reference[k];
        assert(refs[k as int] == entry@);
        assert(prog@[k as int] == *ins);
        if ins.slot != entry.slot {
            assert(!agrees_with(prog@, bytes@, refs));
            return Err(Mismatch::Slot { index: k, ours: ins.slot, theirs: entry.slot });
        }
        proof {
            lemma_total_slots_prefix(prog@, k as int);
        }
        let end = cursor + 8 * ins.slots;
        assert(cursor == 8 * ins.slot);
        if !same_bytes(bytes, cursor, end, &entry.bytes) {
            assert(!agrees_with(prog@, bytes@, refs));
            return Err(Mismatch::Bytes { index: k, slot: ins.slot, start: cursor, end });
        }
        cursor = end;
        k = k + 1;
    }
    assert(agrees_with(prog@, bytes@, refs));
    Ok(())
}

} // verus!
