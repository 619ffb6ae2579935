//! From instructions to bytes: the instructions are handed to the encoder one
//! by one, each label is placed where the table says, and the encoder's
//! answer is read back as bytes and label offsets.

use crate::encoder::{
    assemble, assembler_new, emit_add32, emit_add64, emit_add_imm, emit_call, emit_call_slot,
    emit_dq, emit_load32, emit_load64, emit_mark, emit_mov, emit_mov_imm, emit_pop, emit_push,
    emit_ret, emit_store32, emit_store64, emit_sub32, emit_sub64, emit_sub_imm, accepted, encoding,
    listing,
};
use crate::error::Error;
use crate::instr::{line_of, place_of, Instr, Label, Line, Width};
use iced_x86::code_asm::CodeAssembler;
use iced_x86::IcedError;
use vstd::prelude::*;

verus! {

/// What the encoder made of a program.
pub struct Assembly {
    /// The machine code.
    pub bytes: Vec<u8>,
    /// For each label, the byte offset of the instruction it marks; `None`
    /// for a label that marks no instruction of the program.
    pub offsets: Vec<Option<usize>>,
}

fn refused<T>(r: Result<T, IcedError>) -> (out: Result<T, Error>)
    ensures
        r is Ok <==> out is Ok,
        r is Ok ==> out->Ok_0 == r->Ok_0,
        r is Err ==> out->Err_0 == Error::AssemblerError(r->Err_0),
{
    match r {
        Ok(v) => Ok(v),
        Err(e) => Err(Error::AssemblerError(e)),
    }
}

/// The label that the instruction calls through, where it is a call.
pub open spec fn called_label(instr: Instr) -> Option<Label> {
    match instr {
        Instr::Call(l) => Some(l),
        Instr::CallSlot(l) => Some(l),
        _ => None,
    }
}

/// Whether the instruction calls through none but the first `count` labels.
pub open spec fn labels_known(instr: Instr, count: int) -> bool {
    match called_label(instr) {
        Some(l) => l < count,
        None => true,
    }
}

/// Hands one instruction to the encoder, which `count` labels are known to.
/// A call through a label beyond those is refused as inconsistent before the
/// encoder is asked; any other refusal is the encoder's. Where the encoder
/// takes the instruction, it holds one line more: that of the instruction.
fn emit(coder: &mut CodeAssembler, count: usize, instr: Instr) -> (r: Result<(), Error>)
    ensures
        !labels_known(instr, count as int) ==> r is Err && r->Err_0 is Inconsistent,
        labels_known(instr, count as int) && r is Err ==> r->Err_0 is AssemblerError,
        labels_known(instr, count as int) ==> r is Ok == accepted(line_of(instr)),
        r is Ok ==> listing(*final(coder)) == listing(*old(coder)).push(line_of(instr)),
{
    match instr {
        Instr::Call(l) => {
            if l >= count {
                return Err(Error::Inconsistent);
            }
            refused(emit_call(coder, place_number(l)))
        },
        Instr::CallSlot(l) => {
            if l >= count {
                return Err(Error::Inconsistent);
            }
            refused(emit_call_slot(coder, place_number(l)))
        },
        Instr::Load { dst, disp, width } => emit_memory(coder, instr),
        Instr::Store { disp, src, width } => emit_memory(coder, instr),
        Instr::AddImm { dst, imm } => emit_arithmetic(coder, instr),
        Instr::SubImm { dst, imm } => emit_arithmetic(coder, instr),
        Instr::Add { dst, src, width } => emit_arithmetic(coder, instr),
        Instr::Sub { dst, src, width } => emit_arithmetic(coder, instr),
        _ => emit_plain(coder, instr),
    }
}

/// Hands to the encoder an instruction that moves a register, pushes, pops,
/// returns, or is data.
fn emit_plain(coder: &mut CodeAssembler, instr: Instr) -> (r: Result<(), Error>)
    requires
        instr is Dq || instr is Push || instr is Pop || instr is Mov || instr is MovImm
            || instr is Ret,
    ensures
        r is Err ==> r->Err_0 is AssemblerError,
        r is Ok == accepted(Line::Code(instr)),
        r is Ok ==> listing(*final(coder)) == listing(*old(coder)).push(Line::Code(instr)),
{
    match instr {
        Instr::Dq(value) => refused(emit_dq(coder, value)),
        Instr::Push(reg) => refused(emit_push(coder, reg.number())),
        Instr::Pop(reg) => refused(emit_pop(coder, reg.number())),
        Instr::Mov { dst, src } => refused(emit_mov(coder, dst.number(), src.number())),
        Instr::MovImm { dst, value } => refused(emit_mov_imm(coder, dst.number(), value)),
        _ => refused(emit_ret(coder)),
    }
}

/// Hands to the encoder an instruction that reads or writes a local.
fn emit_memory(coder: &mut CodeAssembler, instr: Instr) -> (r: Result<(), Error>)
    requires
        instr is Load || instr is Store,
    ensures
        r is Err ==> r->Err_0 is AssemblerError,
        r is Ok == accepted(Line::Code(instr)),
        r is Ok ==> listing(*final(coder)) == listing(*old(coder)).push(Line::Code(instr)),
{
    match instr {
        Instr::Load { dst, disp, width: Width::Qword } => refused(
            emit_load64(coder, dst.number(), disp),
        ),
        Instr::Load { dst, disp, width: Width::Dword } => refused(
            emit_load32(coder, dst.number(), disp),
        ),
        Instr::Store { disp, src, width: Width::Qword } => refused(
            emit_store64(coder, disp, src.number()),
        ),
        Instr::Store { disp, src, width: Width::Dword } => refused(
            emit_store32(coder, disp, src.number()),
        ),
        _ => Ok(()),
    }
}

/// Hands to the encoder an instruction that adds or subtracts.
fn emit_arithmetic(coder: &mut CodeAssembler, instr: Instr) -> (r: Result<(), Error>)
    requires
        instr is AddImm || instr is SubImm || instr is Add || instr is Sub,
    ensures
        r is Err ==> r->Err_0 is AssemblerError,
        r is Ok == accepted(Line::Code(instr)),
        r is Ok ==> listing(*final(coder)) == listing(*old(coder)).push(Line::Code(instr)),
{
    match instr {
        Instr::AddImm { dst, imm } => refused(emit_add_imm(coder, dst.number(), imm)),
        Instr::SubImm { dst, imm } => refused(emit_sub_imm(coder, dst.number(), imm)),
        Instr::Add { dst, src, width: Width::Qword } => refused(
            emit_add64(coder, dst.number(), src.number()),
        ),
        Instr::Add { dst, src, width: Width::Dword } => refused(
            emit_add32(coder, dst.number(), src.number()),
        ),
        Instr::Sub { dst, src, width: Width::Qword } => refused(
            emit_sub64(coder, dst.number(), src.number()),
        ),
        Instr::Sub { dst, src, width: Width::Dword } => refused(
            emit_sub32(coder, dst.number(), src.number()),
        ),
        _ => Ok(()),
    }
}

/// The number of the place that a label marks.
fn place_number(label: Label) -> (place: u64)
    requires
        label < usize::MAX,
    ensures
        place == place_of(label),
        place > 0,
{
    label as u64 + 1
}

/// Whether the table places label `l` on an instruction of a program of `n`
/// instructions, by one of its first `upto` entries.
pub open spec fn placed_by(table: Seq<(usize, Label)>, upto: int, n: int, l: Label) -> bool {
    exists|k: int| 0 <= k < upto && (#[trigger] table[k]).1 == l && table[k].0 < n
}

/// Whether the table places label `l` on an instruction of a program of `n`
/// instructions.
pub open spec fn placed(table: Seq<(usize, Label)>, n: int, l: Label) -> bool {
    placed_by(table, table.len() as int, n, l)
}

/// Which of `count` labels the table places on an instruction of a program of
/// `n` instructions. An entry for a label that was never handed out is
/// refused.
fn placements(table: &Vec<(usize, Label)>, n: usize, count: usize) -> (r: Result<Vec<bool>, Error>)
    ensures
        r is Ok ==> r->Ok_0@.len() == count && forall|l: Label|
            0 <= l < count ==> #[trigger] r->Ok_0@[l as int] == placed(table@, n as int, l),
        r is Err ==> r->Err_0 is Inconsistent,
        r is Err <==> exists|k: int| 0 <= k < table@.len() && (#[trigger] table@[k]).1 >= count,
{
    let mut marks: Vec<bool> = Vec::new();
    let mut l: usize = 0;
    while l < count
        invariant
            0 <= l <= count,
            marks@.len() == l,
            forall|j: int| 0 <= j < l ==> !(#[trigger] marks@[j]),
        decreases count - l,
    {
        marks.push(false);
        l = l + 1;
    }
    let mut k: usize = 0;
    while k < table.len()
        invariant
            0 <= k <= table@.len(),
            marks@.len() == count,
            forall|j: int| 0 <= j < k ==> (#[trigger] table@[j]).1 < count,
            forall|l: Label|
                0 <= l < count ==> #[trigger] marks@[l as int] == placed_by(
                    table@,
                    k as int,
                    n as int,
                    l,
                ),
        decreases table@.len() - k,
    {
        let entry: (usize, Label) = table[k];
        if entry.1 >= count {
            assert(table@[k as int].1 >= count);
            return Err(Error::Inconsistent);
        }
        let ghost before = marks@;
        if entry.0 < n {
            marks.set(entry.1, true);
        }
        proof {
            assert forall|l: Label| 0 <= l < count implies #[trigger] marks@[l as int] == placed_by(
                table@,
                k + 1,
                n as int,
                l,
            ) by {
                if placed_by(table@, k as int, n as int, l) {
                    let w = choose|w: int|
                        0 <= w < k && (#[trigger] table@[w]).1 == l && table@[w].0 < n;
                    assert(0 <= w < k + 1 && table@[w].1 == l && table@[w].0 < n);
                }
                if placed_by(table@, k + 1, n as int, l) && !placed_by(table@, k as int, n as int, l) {
                    let w = choose|w: int|
                        0 <= w < k + 1 && (#[trigger] table@[w]).1 == l && table@[w].0 < n;
                    assert(w == k);
                }
                if l == entry.1 && entry.0 < n {
                    assert(table@[k as int].1 == l && table@[k as int].0 < n);
                }
            }
        }
        k = k + 1;
    }
    Ok(marks)
}

/// Whether the table and the program name none but the first `count` labels.
pub open spec fn all_labels_known(program: Seq<Instr>, table: Seq<(usize, Label)>, count: int) -> bool {
    &&& forall|k: int| 0 <= k < table.len() ==> (#[trigger] table[k]).1 < count
    &&& forall|i: int| 0 <= i < program.len() ==> labels_known(#[trigger] program[i], count)
}

/// The places that the first `k` entries of the table put before instruction
/// `at`, in the order of the table.
pub open spec fn marks_before(table: Seq<(usize, Label)>, at: int, k: int) -> Seq<Line>
    decreases k,
{
    if k <= 0 {
        Seq::empty()
    } else if table[k - 1].0 == at {
        marks_before(table, at, k - 1).push(Line::Mark(place_of(table[k - 1].1)))
    } else {
        marks_before(table, at, k - 1)
    }
}

/// What is handed to the encoder for the first `at` instructions of a
/// program: before every instruction the places that the table puts there,
/// then the instruction.
pub open spec fn lines_upto(program: Seq<Instr>, table: Seq<(usize, Label)>, at: int) -> Seq<Line>
    decreases at,
{
    if at <= 0 {
        Seq::empty()
    } else {
        (lines_upto(program, table, at - 1) + marks_before(
            table,
            at - 1,
            table.len() as int,
        )).push(line_of(program[at - 1]))
    }
}

/// What is handed to the encoder for a program.
pub open spec fn lines_of(program: Seq<Instr>, table: Seq<(usize, Label)>) -> Seq<Line> {
    lines_upto(program, table, program.len() as int)
}

/// The index of the last line that is the place with the number given.
pub open spec fn mark_position(lines: Seq<Line>, place: u64) -> Option<int>
    decreases lines.len(),
{
    if lines.len() == 0 {
        None
    } else if lines.last() == Line::Mark(place) {
        Some(lines.len() - 1)
    } else {
        mark_position(lines.drop_last(), place)
    }
}

/// The offset that the encoder gave to the place that a label marks, where
/// `starts` holds the offset of every line.
pub open spec fn label_offset(lines: Seq<Line>, starts: Seq<u32>, label: Label) -> Option<usize> {
    match mark_position(lines, place_of(label)) {
        Some(i) => if i < starts.len() {
            Some(starts[i] as usize)
        } else {
            None
        },
        None => None,
    }
}

/// Whether `found` is the index that `position` names.
pub open spec fn same_position(found: Option<usize>, position: Option<int>) -> bool {
    match (found, position) {
        (Some(i), Some(j)) => i == j,
        (None, None) => true,
        _ => false,
    }
}

/// One more line moves no place but the one it is.
proof fn lemma_mark_position_push(lines: Seq<Line>, line: Line, place: u64)
    ensures
        mark_position(lines.push(line), place) == (if line == Line::Mark(place) {
            Some(lines.len() as int)
        } else {
            mark_position(lines, place)
        }),
{
    assert(lines.push(line).drop_last() =~= lines);
}

/// Whether `part` is the start of `whole`.
pub open spec fn starts_with(whole: Seq<Line>, part: Seq<Line>) -> bool {
    part.len() <= whole.len() && whole.take(part.len() as int) == part
}

/// Whether the encoder's answer settles a label: a label that the table
/// places has a place among the lines, and the place an offset; a label that
/// the table does not place has none.
pub open spec fn label_settled(lines: Seq<Line>, starts: Seq<u32>, table: Seq<(usize, Label)>, n: int, l: Label) -> bool {
    match mark_position(lines, place_of(l)) {
        Some(i) => placed(table, n, l) && i < starts.len(),
        None => !placed(table, n, l),
    }
}

/// Whether the encoder takes every line and makes bytes of them all.
pub open spec fn encodes(lines: Seq<Line>) -> bool {
    &&& forall|i: int| 0 <= i < lines.len() ==> accepted(#[trigger] lines[i])
    &&& encoding(lines) is Some
}

/// Whether a program is encoded: its table and its calls name known labels,
/// the encoder takes every line and makes bytes of them all, and its answer
/// settles every label.
pub open spec fn assembles(program: Seq<Instr>, table: Seq<(usize, Label)>, count: int) -> bool {
    let lines = lines_of(program, table);
    &&& all_labels_known(program, table, count)
    &&& lines.len() <= usize::MAX
    &&& encodes(lines)
    &&& forall|l: Label|
        0 <= l < count ==> #[trigger] label_settled(
            lines,
            encoding(lines)->Some_0.1,
            table,
            program.len() as int,
            l,
        )
}

/// The places before an instruction grow with the entries of the table that
/// are looked at.
proof fn lemma_marks_grow(table: Seq<(usize, Label)>, at: int, k: int, m: int)
    requires
        0 <= k <= m,
    ensures
        starts_with(marks_before(table, at, m), marks_before(table, at, k)),
    decreases m - k,
{
    if k < m {
        lemma_marks_grow(table, at, k, m - 1);
        let shorter = marks_before(table, at, m - 1);
        let longer = marks_before(table, at, m);
        let part = marks_before(table, at, k);
        assert(longer.take(part.len() as int) =~= shorter.take(part.len() as int));
    } else {
        assert(marks_before(table, at, m).take(marks_before(table, at, k).len() as int)
            =~= marks_before(table, at, k));
    }
}

/// The lines for more instructions start with the lines for fewer.
proof fn lemma_lines_grow(program: Seq<Instr>, table: Seq<(usize, Label)>, at: int, n: int)
    requires
        0 <= at <= n,
    ensures
        starts_with(lines_upto(program, table, n), lines_upto(program, table, at)),
    decreases n - at,
{
    let part = lines_upto(program, table, at);
    if at < n {
        lemma_lines_grow(program, table, at, n - 1);
        let shorter = lines_upto(program, table, n - 1);
        let longer = lines_upto(program, table, n);
        assert(longer.take(part.len() as int) =~= shorter.take(part.len() as int));
    } else {
        assert(lines_upto(program, table, n).take(part.len() as int) =~= part);
    }
}

/// The line that follows the places of the first `k` entries before
/// instruction `at`: the place of entry `k`, where that entry places a label
/// there; the instruction, after the last entry.
proof fn lemma_next_line(program: Seq<Instr>, table: Seq<(usize, Label)>, at: int, k: int)
    requires
        0 <= at < program.len(),
        0 <= k <= table.len(),
        k < table.len() ==> table[k].0 == at,
    ensures
        ({
            let held = lines_upto(program, table, at) + marks_before(table, at, k);
            let lines = lines_of(program, table);
            &&& held.len() < lines.len()
            &&& lines[held.len() as int] == (if k < table.len() {
                Line::Mark(place_of(table[k].1))
            } else {
                line_of(program[at])
            })
        }),
{
    let upto = lines_upto(program, table, at);
    let all_marks = marks_before(table, at, table.len() as int);
    let next = lines_upto(program, table, at + 1);
    let lines = lines_of(program, table);
    lemma_lines_grow(program, table, at + 1, program.len() as int);
    assert(next == (upto + all_marks).push(line_of(program[at])));
    if k < table.len() {
        lemma_marks_grow(table, at, k + 1, table.len() as int);
        let part = marks_before(table, at, k + 1);
        assert(part == marks_before(table, at, k).push(Line::Mark(place_of(table[k].1))));
        let held = upto + marks_before(table, at, k);
        assert(all_marks.take(part.len() as int)[part.len() - 1] == part[part.len() - 1]);
        assert(next[held.len() as int] == all_marks[part.len() - 1]);
        assert(lines.take(next.len() as int)[held.len() as int] == next[held.len() as int]);
    } else {
        let held = upto + all_marks;
        assert(next[held.len() as int] == line_of(program[at]));
        assert(lines.take(next.len() as int)[held.len() as int] == next[held.len() as int]);
    }
}

/// Encodes a program. Before every instruction the encoder is handed the
/// places that the table puts there, then the instruction. What comes back is
/// what the encoder makes of these lines: its bytes, and for every label that
/// marks an instruction of the program the offset of its place. A table that
/// names a label beyond the first `count` is refused as inconsistent without
/// the encoder being asked; what the encoder does not take or cannot encode is
/// refused with its error.
pub fn assemble_program(program: &Vec<Instr>, table: &Vec<(usize, Label)>, count: usize) -> (r: Result<Assembly, Error>)
    ensures
        r is Ok <==> assembles(program@, table@, count as int),
        r is Ok ==> {
            let lines = lines_of(program@, table@);
            &&& r->Ok_0.bytes@ == encoding(lines)->Some_0.0
            &&& r->Ok_0.offsets@.len() == count
            &&& forall|l: Label|
                0 <= l < count ==> #[trigger] r->Ok_0.offsets@[l as int] == label_offset(
                    lines,
                    encoding(lines)->Some_0.1,
                    l,
                )
        },
        r is Ok ==> forall|l: Label|
            0 <= l < count ==> (#[trigger] r->Ok_0.offsets@[l as int] is Some) == placed(
                table@,
                program@.len() as int,
                l,
            ),
        r is Err ==> r->Err_0 is AssemblerError || r->Err_0 is Inconsistent,
        (exists|k: int| 0 <= k < table@.len() && (#[trigger] table@[k]).1 >= count) ==> r is Err
            && r->Err_0 is Inconsistent,
        all_labels_known(program@, table@, count as int) && lines_of(program@, table@).len()
            <= usize::MAX && !encodes(lines_of(program@, table@)) ==> r is Err
            && r->Err_0 is AssemblerError,
{
    let marks: Vec<bool> = placements(table, program.len(), count)?;
    let mut coder: CodeAssembler = refused(assembler_new())?;
    let mut positions: Vec<Option<usize>> = Vec::new();
    let mut l: usize = 0;
    while l < count
        invariant
            0 <= l <= count,
            positions@.len() == l,
            forall|j: int| 0 <= j < l ==> (#[trigger] positions@[j]) is None,
        decreases count - l,
    {
        positions.push(None);
        l = l + 1;
    }
    let ghost whole = lines_of(program@, table@);
    let mut emitted: usize = 0;
    let mut at: usize = 0;
    while at < program.len()
        invariant
            0 <= at <= program@.len(),
            positions@.len() == count,
            whole == lines_of(program@, table@),
            forall|k: int| 0 <= k < table@.len() ==> (#[trigger] table@[k]).1 < count,
            forall|i: int| 0 <= i < at ==> labels_known(#[trigger] program@[i], count as int),
            listing(coder) == lines_upto(program@, table@, at as int),
            emitted == listing(coder).len(),
            forall|i: int| 0 <= i < listing(coder).len() ==> accepted(#[trigger] listing(coder)[i]),
            forall|l: Label|
                0 <= l < count ==> same_position(
                    #[trigger] positions@[l as int],
                    mark_position(listing(coder), place_of(l)),
                ),
        decreases program@.len() - at,
    {
        let ghost before = listing(coder);
        let mut k: usize = 0;
        assert(before + marks_before(table@, at as int, 0) =~= before);
        while k < table.len()
            invariant
                0 <= k <= table@.len(),
                0 <= at < program@.len(),
                positions@.len() == count,
                whole == lines_of(program@, table@),
                before == lines_upto(program@, table@, at as int),
                forall|k: int| 0 <= k < table@.len() ==> (#[trigger] table@[k]).1 < count,
                forall|i: int| 0 <= i < at ==> labels_known(#[trigger] program@[i], count as int),
                listing(coder) == before + marks_before(table@, at as int, k as int),
                emitted == listing(coder).len(),
                forall|i: int|
                    0 <= i < listing(coder).len() ==> accepted(#[trigger] listing(coder)[i]),
                forall|l: Label|
                    0 <= l < count ==> same_position(
                        #[trigger] positions@[l as int],
                        mark_position(listing(coder), place_of(l)),
                    ),
            decreases table@.len() - k,
        {
            let entry: (usize, Label) = table[k];
            if entry.0 == at {
                proof {
                    lemma_next_line(program@, table@, at as int, k as int);
                }
                if emitted == usize::MAX {
                    return Err(Error::Inconsistent);
                }
                let ghost held = listing(coder);
                let ghost marked = positions@;
                refused(emit_mark(&mut coder, place_number(entry.1)))?;
                positions.set(entry.1, Some(emitted));
                emitted = emitted + 1;
                proof {
                    let line = Line::Mark(place_of(entry.1));
                    assert(listing(coder) =~= before + marks_before(table@, at as int, k + 1));
                    assert forall|i: int| 0 <= i < listing(coder).len() implies accepted(
                        #[trigger] listing(coder)[i],
                    ) by {
                        if i < held.len() {
                            assert(listing(coder)[i] == held[i]);
                        }
                    }
                    assert forall|l: Label| 0 <= l < count implies same_position(
                        #[trigger] positions@[l as int],
                        mark_position(listing(coder), place_of(l)),
                    ) by {
                        lemma_mark_position_push(held, line, place_of(l));
                        if l != entry.1 {
                            assert(positions@[l as int] == marked[l as int]);
                        }
                    }
                }
            }
            k = k + 1;
        }
        proof {
            lemma_next_line(program@, table@, at as int, table@.len() as int);
        }
        if emitted == usize::MAX {
            return Err(Error::Inconsistent);
        }
        let ghost held = listing(coder);
        emit(&mut coder, count, program[at])?;
        emitted = emitted + 1;
        proof {
            let line = line_of(program@[at as int]);
            assert(listing(coder) =~= lines_upto(program@, table@, at + 1));
            assert forall|i: int| 0 <= i < listing(coder).len() implies accepted(
                #[trigger] listing(coder)[i],
            ) by {
                if i < held.len() {
                    assert(listing(coder)[i] == held[i]);
                }
            }
            assert forall|l: Label| 0 <= l < count implies same_position(
                #[trigger] positions@[l as int],
                mark_position(listing(coder), place_of(l)),
            ) by {
                lemma_mark_position_push(held, line, place_of(l));
            }
        }
        at = at + 1;
    }
    let ghost lines = listing(coder);
    let (bytes, starts) = refused(assemble(&mut coder))?;
    let mut offsets: Vec<Option<usize>> = Vec::new();
    let mut l: usize = 0;
    while l < count
        invariant
            0 <= l <= count,
            marks@.len() == count,
            positions@.len() == count,
            lines == lines_of(program@, table@),
            lines.len() <= usize::MAX,
            forall|i: int| 0 <= i < lines.len() ==> accepted(#[trigger] lines[i]),
            encoding(lines) == Some((bytes@, starts@)),
            forall|k: int| 0 <= k < table@.len() ==> (#[trigger] table@[k]).1 < count,
            forall|i: int|
                0 <= i < program@.len() ==> labels_known(#[trigger] program@[i], count as int),
            forall|l: Label|
                0 <= l < count ==> #[trigger] marks@[l as int] == placed(
                    table@,
                    program@.len() as int,
                    l,
                ),
            forall|l: Label|
                0 <= l < count ==> same_position(
                    #[trigger] positions@[l as int],
                    mark_position(lines, place_of(l)),
                ),
            offsets@.len() == l,
            forall|j: int| 0 <= j < l ==> (#[trigger] offsets@[j] is Some) == marks@[j],
            forall|j: Label|
                0 <= j < l ==> #[trigger] offsets@[j as int] == label_offset(lines, starts@, j),
            forall|j: Label|
                0 <= j < l ==> #[trigger] label_settled(
                    lines,
                    starts@,
                    table@,
                    program@.len() as int,
                    j,
                ),
        decreases count - l,
    {
        assert(same_position(positions@[l as int], mark_position(lines, place_of(l))));
        assert(marks@[l as int] == placed(table@, program@.len() as int, l));
        match (marks[l], positions[l]) {
            (true, Some(i)) => {
                if i >= starts.len() {
                    assert(!label_settled(lines, starts@, table@, program@.len() as int, l));
                    return Err(Error::Inconsistent);
                }
                offsets.push(Some(starts[i] as usize));
            },
            (false, None) => {
                offsets.push(None);
            },
            _ => {
                assert(!label_settled(lines, starts@, table@, program@.len() as int, l));
                return Err(Error::Inconsistent);
            },
        }
        l = l + 1;
    }
    Ok(Assembly { bytes, offsets })
}

} // verus!
