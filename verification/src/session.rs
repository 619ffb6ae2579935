//! The state of a compilation in progress: the code emitted so far, the labels
//! that mark places in it, and the tables of the module being compiled.

use crate::assemble::{
    all_labels_known, assemble_program, assembles, encodes, label_offset, lines_of, placed,
    Assembly,
};
use crate::encoder::encoding;
use crate::endian::le_bytes;
use crate::error::Error;
use crate::frame::{
    all_integers, emit_epilogue, lemma_frame_bytes_monotone, emit_prologue, epilogue_spec, frame_bytes,
    frame_locals, prologue_spec, Frame, Local, FIRST_STACK_ARG,
};
use crate::instr::{Instr, Label, Line, Reg};
use crate::lower::{handle_instruction, lower_spec, signature_of, Op, Tables, TablesView};
use crate::module::{
    apart, apart_from, clear_of, in_slot, lemma_patched, patched, slot, AssembledModule, AssembledView, Import, Module, ModuleView, PUSH_RBP,
    SLOT_BYTES, UNLINKED,
};
use crate::optimizer::{
    fixed, lemma_final_index_bounds, lemma_label_stays, optimize, optimize_spec,
    relabel_final,
};
use crate::types::{MemoryType, Signature, ValueType};
use crate::wasm::{ImportEntryView, Piece};
use std::collections::BTreeMap;
use vstd::bytes::spec_u64_to_le_bytes;
use vstd::prelude::*;

verus! {

broadcast use {vstd::std_specs::btree::group_btree_axioms, vstd::laws_cmp::group_laws_cmp};

/// An imported function whose slot has no offset yet.
pub struct PendingImport {
    pub index: u32,
    pub module: String,
    pub field: Option<String>,
    /// The label of its slot.
    pub label: Label,
}

/// A pending import as a mathematical value.
pub struct PendingImportView {
    pub index: u32,
    pub module: Seq<char>,
    pub field: Option<Seq<char>>,
    pub label: Label,
}

impl View for PendingImport {
    type V = PendingImportView;

    open spec fn view(&self) -> PendingImportView {
        PendingImportView {
            index: self.index,
            module: self.module@,
            field: match self.field {
                Some(f) => Some(f@),
                None => None,
            },
            label: self.label,
        }
    }
}

/// What a function body starts from.
pub struct BodyStart {
    /// The index of the function.
    pub index: u32,
    /// The label of its first instruction.
    pub label: Label,
    /// The types of its parameters.
    pub params: Vec<ValueType>,
    /// The types of its results.
    pub results: Vec<ValueType>,
}

/// A compilation in progress.
pub struct Session {
    module: Module,
    program: Vec<Instr>,
    tables: Tables,
    label_indices: Vec<(usize, Label)>,
    function_bodies: Vec<(Label, u32)>,
    slots: Vec<(Label, Label, u32)>,
    imports: Vec<PendingImport>,
    labels: usize,
    function_index: u32,
    function_body_index: u32,
    function_type_index: u32,
}

/// A compilation in progress as a mathematical value.
pub struct SessionView {
    /// The tables of the module as far as they are known.
    pub module: ModuleView,
    /// The instructions emitted so far.
    pub program: Seq<Instr>,
    /// What is known of the functions.
    pub tables: TablesView,
    /// For each label that marks an instruction, the index of the instruction.
    pub label_indices: Seq<(usize, Label)>,
    /// For each function whose body is emitted, the label of its start.
    pub function_bodies: Seq<(Label, u32)>,
    /// For each declared function, the label of its slot, the label of its
    /// start, and its index.
    pub slots: Seq<(Label, Label, u32)>,
    /// The imported functions.
    pub imports: Seq<PendingImportView>,
    /// How many labels were handed out.
    pub labels: usize,
    /// The index of the next function, imported or declared.
    pub function_index: u32,
    /// The index of the function whose body comes next.
    pub function_body_index: u32,
    /// The index of the next signature.
    pub function_type_index: u32,
}

impl SessionView {
    /// Whether there is room for one more signature.
    pub open spec fn takes_type(self) -> bool {
        self.function_type_index < u32::MAX
    }

    /// After a signature was recorded under the next index.
    pub open spec fn with_type(self, signature: Signature) -> SessionView {
        SessionView {
            tables: TablesView {
                function_typedefs: self.tables.function_typedefs.insert(
                    self.function_type_index,
                    signature,
                ),
                ..self.tables
            },
            function_type_index: (self.function_type_index + 1) as u32,
            ..self
        }
    }

    /// Whether there is room for one more function and the labels it takes.
    pub open spec fn takes_function(self) -> bool {
        &&& self.function_index < u32::MAX
        &&& self.function_body_index < u32::MAX
        &&& self.labels < usize::MAX - 1
    }

    /// After a function was imported: a slot that holds the mark of an
    /// unlinked import is emitted under a new label, the function takes the
    /// next index, and the bodies start one index later.
    pub open spec fn with_import(self, module: Seq<char>, field: Option<Seq<char>>, signature: u32) -> SessionView {
        SessionView {
            program: self.program.push(Instr::Dq(UNLINKED)),
            label_indices: self.label_indices.push((self.program.len() as usize, self.labels)),
            tables: TablesView {
                ils: self.tables.ils.insert(self.function_index, self.labels),
                function_types: self.tables.function_types.insert(self.function_index, signature),
                ..self.tables
            },
            imports: self.imports.push(
                PendingImportView { index: self.function_index, module, field, label: self.labels },
            ),
            labels: (self.labels + 1) as usize,
            function_index: (self.function_index + 1) as u32,
            function_body_index: (self.function_body_index + 1) as u32,
            ..self
        }
    }

    /// After a function was declared: a slot that holds zero is emitted under
    /// a new label, a second new label is kept for the start of the function's
    /// code, and the function takes the next index.
    pub open spec fn with_function(self, signature: u32) -> SessionView {
        SessionView {
            module: ModuleView {
                functions: self.module.functions.insert(self.function_index, self.program.len() as usize),
                ..self.module
            },
            program: self.program.push(Instr::Dq(0)),
            label_indices: self.label_indices.push((self.program.len() as usize, self.labels)),
            tables: TablesView {
                got: self.tables.got.insert(self.function_index, (self.labels + 1) as usize),
                function_types: self.tables.function_types.insert(self.function_index, signature),
                ..self.tables
            },
            slots: self.slots.push(
                (self.labels, (self.labels + 1) as usize, self.function_index),
            ),
            labels: (self.labels + 2) as usize,
            function_index: (self.function_index + 1) as u32,
            ..self
        }
    }

    /// After an export was recorded.
    pub open spec fn with_export(self, name: Seq<char>, index: u32) -> SessionView {
        SessionView {
            module: ModuleView { exports: self.module.exports.push((name, index)), ..self.module },
            ..self
        }
    }

    /// After a memory was recorded.
    pub open spec fn with_memory(self, memory: MemoryType) -> SessionView {
        SessionView {
            module: ModuleView { memories: self.module.memories.push(memory), ..self.module },
            ..self
        }
    }

    /// The signature and the label of the function whose body comes next,
    /// where both are known.
    pub open spec fn next_body(self) -> Option<(Signature, Label)> {
        match signature_of(self.tables, self.function_body_index) {
            Some(signature) => if self.tables.got.contains_key(self.function_body_index) {
                Some((signature, self.tables.got[self.function_body_index]))
            } else {
                None
            },
            None => None,
        }
    }

    /// After the body of a function was begun: its label marks the next
    /// instruction.
    pub open spec fn with_body_begun(self, label: Label) -> SessionView {
        SessionView {
            label_indices: self.label_indices.push((self.program.len() as usize, label)),
            ..self
        }
    }

    /// After instructions were emitted.
    pub open spec fn with_code(self, code: Seq<Instr>) -> SessionView {
        SessionView { program: self.program + code, ..self }
    }

    /// After the body of a function was ended: the epilogue is emitted, the
    /// function is noted as one whose code exists, the greatest depth of its
    /// operand stack is recorded, and the next body belongs to the next
    /// function.
    pub open spec fn with_body_ended(self, index: u32, label: Label, results: Seq<ValueType>, size: u32, peak: u32) -> SessionView {
        SessionView {
            module: ModuleView { heights: self.module.heights.insert(index, peak), ..self.module },
            program: self.program + epilogue_spec(results, size),
            function_bodies: self.function_bodies.push((label, index)),
            function_body_index: (self.function_body_index + 1) as u32,
            ..self
        }
    }

    /// The depth of the operand stack is recorded for every function that is
    /// noted as one whose code exists, and no offset in the code is recorded
    /// before the code is encoded.
    pub open spec fn wf(self) -> bool {
        &&& forall|k: int|
            0 <= k < self.function_bodies.len() ==> self.module.heights.contains_key(
                (#[trigger] self.function_bodies[k]).1,
            )
        &&& self.module.imports.len() == 0
        &&& self.module.bodies == Map::<u32, usize>::empty()
        &&& self.module.frames == Map::<u32, bool>::empty()
        &&& self.module.slots == Map::<u32, usize>::empty()
    }
}

/// The greatest of `heights`, zero where there is none.
pub open spec fn peak_spec(heights: Seq<u32>) -> u32
    decreases heights.len(),
{
    if heights.len() == 0 {
        0
    } else {
        let rest = peak_spec(heights.drop_last());
        if heights.last() > rest {
            heights.last()
        } else {
            rest
        }
    }
}

/// The greatest depth among those observed.
pub fn peak_height(heights: &Vec<u32>) -> (peak: u32)
    ensures
        peak == peak_spec(heights@),
{
    let mut peak: u32 = 0;
    let mut i: usize = 0;
    assert(heights@.take(0) =~= Seq::empty());
    while i < heights.len()
        invariant
            0 <= i <= heights.len(),
            peak == peak_spec(heights@.take(i as int)),
        decreases heights.len() - i,
    {
        assert(heights@.take(i + 1).drop_last() =~= heights@.take(i as int));
        if heights[i] > peak {
            peak = heights[i];
        }
        i = i + 1;
    }
    assert(heights@.take(i as int) =~= heights@);
    peak
}

/// A copy of a list of types.
pub fn copy_types(types: &Vec<ValueType>) -> (copy: Vec<ValueType>)
    ensures
        copy@ == types@,
{
    let mut copy: Vec<ValueType> = Vec::new();
    let mut i: usize = 0;
    while i < types.len()
        invariant
            0 <= i <= types.len(),
            copy@ == types@.take(i as int),
        decreases types.len() - i,
    {
        copy.push(types[i]);
        assert(copy@ =~= types@.take(i + 1));
        i = i + 1;
    }
    assert(types@.take(i as int) =~= types@);
    copy
}

/// The session before anything is known of the module.
pub open spec fn initial() -> SessionView {
    SessionView {
        module: ModuleView {
            functions: Map::empty(),
            slots: Map::empty(),
            bodies: Map::empty(),
            heights: Map::empty(),
            frames: Map::empty(),
            exports: Seq::empty(),
            imports: Seq::empty(),
            memories: Seq::empty(),
        },
        program: Seq::empty(),
        tables: TablesView {
            got: Map::empty(),
            ils: Map::empty(),
            function_types: Map::empty(),
            function_typedefs: Map::empty(),
        },
        label_indices: Seq::empty(),
        function_bodies: Seq::empty(),
        slots: Seq::empty(),
        imports: Seq::empty(),
        labels: 0,
        function_index: 0,
        function_body_index: 0,
        function_type_index: 0,
    }
}

/// The code of a run of operators, one after the other, in a function with
/// the locals given.
pub open spec fn lowered(tables: TablesView, locals: Seq<Local>, ops: Seq<Op>) -> Seq<Instr>
    decreases ops.len(),
{
    if ops.len() == 0 {
        Seq::empty()
    } else {
        lowered(tables, locals, ops.drop_last()) + (match lower_spec(tables, locals, ops.last()) {
            Some(code) => code,
            None => Seq::empty(),
        })
    }
}

/// Whether every operator of a run is lowered.
pub open spec fn all_lowered(tables: TablesView, locals: Seq<Local>, ops: Seq<Op>) -> bool {
    forall|i: int| 0 <= i < ops.len() ==> lower_spec(tables, locals, #[trigger] ops[i]) is Some
}

/// The types of the locals that groups of locals declare: each group its
/// count of times its type.
pub open spec fn expand(groups: Seq<(u32, ValueType)>) -> Seq<ValueType>
    decreases groups.len(),
{
    if groups.len() == 0 {
        Seq::empty()
    } else {
        expand(groups.drop_last()) + Seq::new(
            groups.last().0 as nat,
            |i: int| groups.last().1,
        )
    }
}

/// Whether the type of every group has a size.
pub open spec fn groups_sized(groups: Seq<(u32, ValueType)>) -> bool {
    forall|i: int| 0 <= i < groups.len() ==> (#[trigger] groups[i]).1.size_spec() is Some
}

impl SessionView {
    /// Whether the body of the next function can be compiled, where `groups`
    /// are the groups of its declared locals, `ops` its operators and
    /// `heights` the depth of the operand stack after each operator: the
    /// function is known, its parameters and results are integers, its frame
    /// fits, and every operator is lowered.
    pub open spec fn takes_body(self, groups: Seq<(u32, ValueType)>, ops: Seq<Op>, heights: Seq<u32>) -> bool {
        match self.next_body() {
            Some((signature, label)) => {
                let types = signature.params@ + expand(groups);
                &&& heights.len() == ops.len()
                &&& groups_sized(groups)
                &&& frame_bytes(types) <= u32::MAX
                &&& all_integers(signature.params@)
                &&& frame_bytes(signature.params@) + FIRST_STACK_ARG <= i32::MAX
                &&& all_lowered(self.tables, frame_locals(types), ops)
                &&& all_integers(signature.results@)
                &&& self.function_body_index < u32::MAX
            },
            None => false,
        }
    }

    /// After the body of the next function was compiled: its label marks the
    /// prologue, the code of its operators follows, then the epilogue; and the
    /// greatest of `heights` is recorded as the depth of its operand stack.
    pub open spec fn with_body(self, groups: Seq<(u32, ValueType)>, ops: Seq<Op>, heights: Seq<u32>) -> SessionView {
        let (signature, label) = self.next_body()->Some_0;
        let types = signature.params@ + expand(groups);
        let locals = frame_locals(types);
        let size = frame_bytes(types) as u32;
        self.with_body_begun(label).with_code(
            prologue_spec(signature.params@, locals, size) + lowered(self.tables, locals, ops),
        ).with_body_ended(
            self.function_body_index,
            label,
            signature.results@,
            size,
            peak_spec(heights),
        )
    }
}

/// One step of a compilation, with the values that decide it.
pub enum Event {
    /// An entry of a type section was read: a function signature, or a type
    /// of another kind, which changes nothing.
    Type(Option<Signature>),
    /// An entry of an import section was read; one that imports no function
    /// changes nothing.
    Import(ImportEntryView),
    /// A function declaration was read: signature index.
    Function(u32),
    /// An export was read: name and index.
    Export(Seq<char>, u32),
    /// A memory was read.
    Memory(MemoryType),
    /// A function body was read: the groups of its declared locals, its
    /// operators, and the depth of the operand stack after each.
    Body(Seq<(u32, ValueType)>, Seq<Op>, Seq<u32>),
    /// A section of nested modules was met, which no session takes.
    Nested,
}

/// Whether the session takes the step.
pub open spec fn permitted(s: SessionView, e: Event) -> bool {
    match e {
        Event::Type(Some(_)) => s.takes_type(),
        Event::Type(None) => true,
        Event::Import(entry) => entry.function is None || s.takes_function(),
        Event::Function(_) => s.takes_function(),
        Event::Export(_, _) => true,
        Event::Memory(_) => true,
        Event::Body(groups, ops, heights) => s.takes_body(groups, ops, heights),
        Event::Nested => false,
    }
}

/// The session after the step.
pub open spec fn apply(s: SessionView, e: Event) -> SessionView {
    match e {
        Event::Type(Some(signature)) => s.with_type(signature),
        Event::Type(None) => s,
        Event::Import(entry) => match entry.function {
            Some(signature) => s.with_import(entry.module, entry.field, signature),
            None => s,
        },
        Event::Function(signature) => s.with_function(signature),
        Event::Export(name, index) => s.with_export(name, index),
        Event::Memory(memory) => s.with_memory(memory),
        Event::Body(groups, ops, heights) => s.with_body(groups, ops, heights),
        Event::Nested => s,
    }
}

/// The session after a run of steps.
pub open spec fn replay(s: SessionView, events: Seq<Event>) -> SessionView
    decreases events.len(),
{
    if events.len() == 0 {
        s
    } else {
        apply(replay(s, events.drop_last()), events.last())
    }
}

/// Whether the session takes every step of a run, each in the state the
/// steps before it leave.
pub open spec fn runs(s: SessionView, events: Seq<Event>) -> bool
    decreases events.len(),
{
    events.len() == 0 || (runs(s, events.drop_last()) && permitted(
        replay(s, events.drop_last()),
        events.last(),
    ))
}

/// The steps that a piece of a module asks for, in order.
pub open spec fn steps(piece: Piece) -> Seq<Event> {
    match piece {
        Piece::Types(entries) => Seq::new(entries.len(), |i: int| Event::Type(entries[i])),
        Piece::Imports(entries) => Seq::new(entries.len(), |i: int| Event::Import(entries[i])),
        Piece::Functions(entries) => Seq::new(entries.len(), |i: int| Event::Function(entries[i])),
        Piece::Exports(entries) => Seq::new(
            entries.len(),
            |i: int| Event::Export(entries[i].0, entries[i].1),
        ),
        Piece::Memories(entries) => Seq::new(entries.len(), |i: int| Event::Memory(entries[i])),
        Piece::Body(groups, ops, heights) => seq![Event::Body(groups, ops, heights)],
        Piece::Nested => seq![Event::Nested],
        Piece::Other => Seq::empty(),
    }
}

/// The steps that the pieces of a module ask for, in order.
pub open spec fn all_steps(pieces: Seq<Piece>) -> Seq<Event>
    decreases pieces.len(),
{
    if pieces.len() == 0 {
        Seq::empty()
    } else {
        all_steps(pieces.drop_last()) + steps(pieces.last())
    }
}

/// One more step after a run.
pub proof fn lemma_replay_push(s: SessionView, events: Seq<Event>, e: Event)
    ensures
        replay(s, events.push(e)) == apply(replay(s, events), e),
        runs(s, events.push(e)) == (runs(s, events) && permitted(replay(s, events), e)),
{
    assert(events.push(e).drop_last() =~= events);
}

/// A run after a run is a run.
pub proof fn lemma_replay_concat(s: SessionView, first: Seq<Event>, second: Seq<Event>)
    ensures
        replay(s, first + second) == replay(replay(s, first), second),
        runs(s, first + second) == (runs(s, first) && runs(replay(s, first), second)),
    decreases second.len(),
{
    if second.len() == 0 {
        assert(first + second =~= first);
    } else {
        lemma_replay_concat(s, first, second.drop_last());
        assert((first + second).drop_last() =~= first + second.drop_last());
        assert((first + second).last() == second.last());
    }
}

/// A session that takes a run takes every start of it, and the step after.
pub proof fn lemma_runs_take(s: SessionView, events: Seq<Event>, k: int)
    requires
        runs(s, events),
        0 <= k <= events.len(),
    ensures
        runs(s, events.take(k)),
        k < events.len() ==> permitted(replay(s, events.take(k)), events[k]),
{
    assert(events =~= events.take(k) + events.skip(k));
    lemma_replay_concat(s, events.take(k), events.skip(k));
    if k < events.len() {
        assert(events.take(k + 1) =~= events.take(k).push(events[k]));
        assert(events =~= events.take(k + 1) + events.skip(k + 1));
        lemma_replay_concat(s, events.take(k + 1), events.skip(k + 1));
        lemma_replay_push(s, events.take(k), events[k]);
    }
}

/// The steps of pieces after pieces are the steps of the first, then those of
/// the second.
pub proof fn lemma_all_steps_concat(first: Seq<Piece>, second: Seq<Piece>)
    ensures
        all_steps(first + second) == all_steps(first) + all_steps(second),
    decreases second.len(),
{
    if second.len() == 0 {
        assert(first + second =~= first);
        assert(all_steps(first) + all_steps(second) =~= all_steps(first));
    } else {
        lemma_all_steps_concat(first, second.drop_last());
        assert((first + second).drop_last() =~= first + second.drop_last());
        assert((first + second).last() == second.last());
        assert(all_steps(first + second) =~= all_steps(first) + all_steps(second));
    }
}

/// The locals that more groups declare come after those of the groups before
/// them, and take no fewer bytes.
pub proof fn lemma_expand_take(params: Seq<ValueType>, groups: Seq<(u32, ValueType)>, k: int)
    requires
        0 <= k <= groups.len(),
    ensures
        frame_bytes(params + expand(groups.take(k))) <= frame_bytes(params + expand(groups)),
    decreases groups.len() - k,
{
    if k == groups.len() {
        assert(groups.take(k) =~= groups);
    } else {
        lemma_expand_take(params, groups, k + 1);
        let longer = groups.take(k + 1);
        assert(longer.drop_last() =~= groups.take(k));
        let whole = params + expand(longer);
        let part = params + expand(groups.take(k));
        assert(whole.take(part.len() as int) =~= part);
        lemma_frame_bytes_monotone(whole, part.len() as int);
    }
}

/// Locals of one type, one after the other, take the bytes of one times
/// their number.
pub proof fn lemma_frame_bytes_repeat(types: Seq<ValueType>, count: nat, ty: ValueType)
    ensures
        frame_bytes(types + Seq::new(count, |i: int| ty)) == frame_bytes(types) + count * (
        match ty.size_spec() {
            Some(n) => n as int,
            None => 0,
        }),
    decreases count,
{
    let all = types + Seq::new(count, |i: int| ty);
    if count == 0 {
        assert(all =~= types);
    } else {
        lemma_frame_bytes_repeat(types, (count - 1) as nat, ty);
        assert(all.drop_last() =~= types + Seq::new((count - 1) as nat, |i: int| ty));
        assert(all.last() == ty);
        let n = match ty.size_spec() {
            Some(n) => n as int,
            None => 0,
        };
        assert(count * n == (count - 1) * n + n) by (nonlinear_arith);
    }
}

/// The memories that a run of steps records, in order.
pub open spec fn memories_in(events: Seq<Event>) -> Seq<MemoryType>
    decreases events.len(),
{
    if events.len() == 0 {
        Seq::empty()
    } else {
        match events.last() {
            Event::Memory(memory) => memories_in(events.drop_last()).push(memory),
            _ => memories_in(events.drop_last()),
        }
    }
}

/// The memories of a session after a run of steps are those it had, then
/// those that the steps record, complete and in order.
pub proof fn lemma_replay_memories(s: SessionView, events: Seq<Event>)
    ensures
        replay(s, events).module.memories == s.module.memories + memories_in(events),
    decreases events.len(),
{
    if events.len() == 0 {
        assert(s.module.memories + memories_in(events) =~= s.module.memories);
    } else {
        lemma_replay_memories(s, events.drop_last());
        let before = replay(s, events.drop_last());
        assert(replay(s, events).module.memories =~= s.module.memories + memories_in(events));
    }
}

/// A step records nothing for a function whose body came before, and the
/// index of the next body never goes back; a body records for its function
/// the greatest of its depths.
pub proof fn lemma_step_heights(s: SessionView, e: Event, f: u32)
    requires
        permitted(s, e),
        f < s.function_body_index,
    ensures
        s.function_body_index <= apply(s, e).function_body_index,
        apply(s, e).module.heights.contains_key(f) == s.module.heights.contains_key(f),
        s.module.heights.contains_key(f) ==> apply(s, e).module.heights[f] == s.module.heights[f],
{
}

/// The depth recorded for a function is the greatest of the depths that the
/// validator reported over its body: where step `k` of a run is the body of a
/// function, the session after the run holds, for the index that the function
/// had, the greatest of the depths of that step.
pub proof fn lemma_height_is_peak(events: Seq<Event>, k: int)
    requires
        runs(initial(), events),
        0 <= k < events.len(),
        events[k] is Body,
    ensures
        ({
            let f = replay(initial(), events.take(k)).function_body_index;
            let heights = replay(initial(), events).module.heights;
            heights.contains_key(f) && heights[f] == peak_spec(events[k]->Body_2)
        }),
    decreases events.len() - k,
{
    let f = replay(initial(), events.take(k)).function_body_index;
    lemma_runs_take(initial(), events, k);
    lemma_replay_push(initial(), events.take(k), events[k]);
    assert(events.take(k + 1) =~= events.take(k).push(events[k]));
    lemma_heights_kept(events, k + 1, events.len() as int, f);
    assert(events.take(events.len() as int) =~= events);
}

/// What is recorded for a function whose body came before stays through the
/// steps that follow.
proof fn lemma_heights_kept(events: Seq<Event>, from: int, to: int, f: u32)
    requires
        runs(initial(), events),
        0 <= from <= to <= events.len(),
        f < replay(initial(), events.take(from)).function_body_index,
        replay(initial(), events.take(from)).module.heights.contains_key(f),
    ensures
        f < replay(initial(), events.take(to)).function_body_index,
        replay(initial(), events.take(to)).module.heights.contains_key(f),
        replay(initial(), events.take(to)).module.heights[f] == replay(
            initial(),
            events.take(from),
        ).module.heights[f],
    decreases to - from,
{
    if from < to {
        lemma_heights_kept(events, from, to - 1, f);
        lemma_runs_take(initial(), events, to - 1);
        lemma_replay_push(initial(), events.take(to - 1), events[to - 1]);
        assert(events.take(to) =~= events.take(to - 1).push(events[to - 1]));
        lemma_step_heights(replay(initial(), events.take(to - 1)), events[to - 1], f);
    }
}

/// Whether the label at `i` stands at the start of the program or after an
/// instruction that no rewrite of the optimizer takes.
pub open spec fn guarded(program: Seq<Instr>, i: int) -> bool {
    i == 0 || (0 < i <= program.len() && fixed(program[i - 1]))
}

/// Whether the table puts the label at such a place, with a return at or
/// after it.
pub open spec fn anchored(program: Seq<Instr>, table: Seq<(usize, Label)>, label: Label) -> bool {
    exists|t: int, j: int|
        0 <= t < table.len() && (#[trigger] table[t]).1 == label && guarded(
            program,
            table[t].0 as int,
        ) && table[t].0 <= j < program.len() && #[trigger] program[j] == Instr::Ret
}

/// Whether a session stands between two pieces of a module: the program ends
/// with an instruction that no rewrite takes, and the start of every function
/// whose code is emitted is anchored.
pub open spec fn settled(s: SessionView) -> bool {
    &&& s.program.len() == 0 || fixed(s.program.last())
    &&& forall|k: int|
        0 <= k < s.function_bodies.len() ==> anchored(
            s.program,
            s.label_indices,
            (#[trigger] s.function_bodies[k]).0,
        )
}

/// Whether a module holds the start of every function whose code the session
/// emitted.
pub open spec fn complete(s: SessionView, m: AssembledView) -> bool {
    forall|k: int|
        0 <= k < s.function_bodies.len() ==> m.module.bodies.contains_key(
            (#[trigger] s.function_bodies[k]).1,
        )
}

/// More code and more labels leave an anchored label anchored.
pub proof fn lemma_anchored_extends(program: Seq<Instr>, table: Seq<(usize, Label)>, label: Label, code: Seq<Instr>, entries: Seq<(usize, Label)>)
    requires
        anchored(program, table, label),
    ensures
        anchored(program + code, table + entries, label),
{
    let (t, j) = choose|t: int, j: int|
        0 <= t < table.len() && (#[trigger] table[t]).1 == label && guarded(
            program,
            table[t].0 as int,
        ) && table[t].0 <= j < program.len() && #[trigger] program[j] == Instr::Ret;
    let longer = program + code;
    let more = table + entries;
    assert(more[t] == table[t]);
    assert(longer[j] == program[j]);
    if table[t].0 > 0 {
        assert(longer[table[t].0 - 1] == program[table[t].0 - 1]);
    }
}

/// A step leaves a settled session settled, and its program no shorter.
pub proof fn lemma_step_settled(s: SessionView, e: Event)
    requires
        settled(s),
        permitted(s, e),
        apply(s, e).program.len() <= usize::MAX,
    ensures
        settled(apply(s, e)),
        s.program.len() <= apply(s, e).program.len(),
{
    let after = apply(s, e);
    let code = after.program.skip(s.program.len() as int);
    let entries = after.label_indices.skip(s.label_indices.len() as int);
    match e {
        Event::Body(groups, ops, heights) => {
            let (signature, label) = s.next_body()->Some_0;
            assert(after.program =~= s.program + code);
            assert(after.label_indices =~= s.label_indices + entries);
            assert(after.program.last() == Instr::Ret);
            assert forall|k: int| 0 <= k < after.function_bodies.len() implies anchored(
                after.program,
                after.label_indices,
                (#[trigger] after.function_bodies[k]).0,
            ) by {
                if k < s.function_bodies.len() {
                    assert(after.function_bodies[k] == s.function_bodies[k]);
                    lemma_anchored_extends(
                        s.program,
                        s.label_indices,
                        s.function_bodies[k].0,
                        code,
                        entries,
                    );
                } else {
                    let t = s.label_indices.len() as int;
                    let j = after.program.len() - 1;
                    assert(after.label_indices[t] == (s.program.len() as usize, label));
                    if s.program.len() > 0 {
                        assert(after.program[s.program.len() - 1] == s.program.last());
                    }
                    assert(after.program[j] == Instr::Ret);
                }
            }
        },
        _ => {
            assert(after.program =~= s.program + code);
            assert(after.label_indices =~= s.label_indices + entries);
            assert(after.function_bodies == s.function_bodies);
            assert forall|k: int| 0 <= k < after.function_bodies.len() implies anchored(
                after.program,
                after.label_indices,
                (#[trigger] after.function_bodies[k]).0,
            ) by {
                lemma_anchored_extends(
                    s.program,
                    s.label_indices,
                    s.function_bodies[k].0,
                    code,
                    entries,
                );
            }
        },
    }
}

/// A run of steps from the initial session leaves a settled session.
pub proof fn lemma_replay_settled(events: Seq<Event>)
    requires
        runs(initial(), events),
        replay(initial(), events).program.len() <= usize::MAX,
    ensures
        settled(replay(initial(), events)),
    decreases events.len(),
{
    if events.len() > 0 {
        let before = replay(initial(), events.drop_last());
        lemma_step_length(before, events.last());
        lemma_replay_settled(events.drop_last());
        lemma_step_settled(before, events.last());
    }
}

/// No step shortens the program.
pub proof fn lemma_step_length(s: SessionView, e: Event)
    ensures
        s.program.len() <= apply(s, e).program.len(),
{
}

/// What is handed to the encoder when a session ends: the optimized program,
/// with the places that the label table puts in it after the optimization.
pub open spec fn final_lines(s: SessionView) -> Seq<Line> {
    lines_of(optimize_spec(s.program), relabelled(s.program, s.label_indices))
}

/// The bytes that the encoder makes of a session that ends, where it makes
/// any.
pub open spec fn final_code(s: SessionView) -> Seq<u8> {
    encoding(final_lines(s))->Some_0.0
}

/// The offset that the encoder gives to the place of a label when a session
/// ends; `None` for a label that was never handed out or marks no instruction.
pub open spec fn final_offset(s: SessionView, label: Label) -> Option<usize> {
    if label < s.labels && encoding(final_lines(s)) is Some {
        label_offset(final_lines(s), encoding(final_lines(s))->Some_0.1, label)
    } else {
        None
    }
}

/// Whether the byte at `j` belongs to the slot of one of the first `n`
/// declared functions whose slot is filled in: both the slot and the start of
/// the function have an offset.
pub open spec fn filled(s: SessionView, n: int, j: int) -> bool
    decreases n,
{
    n > 0 && (filled(s, n - 1, j) || match (
        final_offset(s, s.slots[n - 1].0),
        final_offset(s, s.slots[n - 1].1),
    ) {
        (Some(at), Some(_)) => at <= j < at + SLOT_BYTES,
        _ => false,
    })
}

/// What a finished compilation makes of the session it ends. The tables of
/// functions, heights, exports and memories are kept as they are. The code is
/// what the encoder makes of the optimized program, but for the slots of
/// declared functions, which hold the offsets of their functions. Every offset
/// recorded is the one that the encoder gave: the slot of every import, in
/// order; the start of every function whose code stays in the program; the
/// slot of every declared function that has one.
pub open spec fn finished(s: SessionView, m: AssembledView) -> bool {
    &&& m.wf()
    &&& m.unlinked()
    &&& m.module.functions == s.module.functions
    &&& m.module.heights == s.module.heights
    &&& m.module.exports == s.module.exports
    &&& m.module.memories == s.module.memories
    &&& encoding(final_lines(s)) is Some
    &&& m.binary.len() == final_code(s).len()
    &&& forall|j: int|
        0 <= j < m.binary.len() && !filled(s, s.slots.len() as int, j) ==> #[trigger] m.binary[j]
            == final_code(s)[j]
    &&& m.module.imports.len() == s.imports.len()
    &&& forall|i: int|
        0 <= i < s.imports.len() ==> {
            let import = #[trigger] m.module.imports[i];
            &&& import.index == s.imports[i].index
            &&& import.module == s.imports[i].module
            &&& import.field == s.imports[i].field
            &&& final_offset(s, s.imports[i].label) == Some(import.offset)
        }
    &&& forall|k: int|
        0 <= k < s.function_bodies.len() && body_stays(s, (#[trigger] s.function_bodies[k]).0)
            ==> m.module.bodies.contains_key(s.function_bodies[k].1)
    &&& forall|f: u32| #[trigger]
        m.module.bodies.contains_key(f) ==> exists|k: int|
            0 <= k < s.function_bodies.len() && (#[trigger] s.function_bodies[k]).1 == f
                && body_stays(s, s.function_bodies[k].0) && final_offset(
                s,
                s.function_bodies[k].0,
            ) == Some(m.module.bodies[f])
    &&& forall|f: u32| #[trigger]
        m.module.slots.contains_key(f) ==> exists|n: int|
            0 <= n < s.slots.len() && (#[trigger] s.slots[n]).2 == f && final_offset(
                s,
                s.slots[n].0,
            ) == Some(m.module.slots[f])
    &&& forall|f: u32|
        (if m.module.bodies.contains_key(f) {
            Some(m.module.bodies[f])
        } else {
            None
        }) == #[trigger] recorded(s, f, s.function_bodies.len() as int)
    &&& m.binary == final_binary(s)
}

impl View for Session {
    type V = SessionView;

    closed spec fn view(&self) -> SessionView {
        SessionView {
            module: self.module@,
            program: self.program@,
            tables: self.tables@,
            label_indices: self.label_indices@,
            function_bodies: self.function_bodies@,
            slots: self.slots@,
            imports: Seq::new(self.imports@.len(), |i: int| self.imports@[i]@),
            labels: self.labels,
            function_index: self.function_index,
            function_body_index: self.function_body_index,
            function_type_index: self.function_type_index,
        }
    }
}

impl Session {
    /// The program of a session fits in memory.
    pub proof fn lemma_bounded(&self)
        ensures
            self@.program.len() <= usize::MAX,
    {
        assert(self.program@.len() == self.program.len());
    }

    /// The start of a compilation: nothing emitted, nothing known.
    pub fn new() -> (s: Session)
        ensures
            s@.wf(),
            s@ == initial(),
    {
        let s = Session {
            module: Module::new(),
            program: Vec::new(),
            tables: Tables {
                got: BTreeMap::new(),
                ils: BTreeMap::new(),
                function_types: BTreeMap::new(),
                function_typedefs: BTreeMap::new(),
            },
            label_indices: Vec::new(),
            function_bodies: Vec::new(),
            slots: Vec::new(),
            imports: Vec::new(),
            labels: 0,
            function_index: 0,
            function_body_index: 0,
            function_type_index: 0,
        };
        assert(s@.imports =~= Seq::<PendingImportView>::empty());
        assert(s@.tables == initial().tables);
        assert(s@.module == initial().module);
        s
    }

    /// Records a signature under the next index.
    pub fn add_type(&mut self, signature: Signature) -> (r: Result<(), Error>)
        ensures
            old(self)@.takes_type() ==> r is Ok && final(self)@ == old(self)@.with_type(signature),
            !old(self)@.takes_type() ==> r is Err && r->Err_0 is Unsupported && final(self)@ == old(
                self,
            )@,
            old(self)@.wf() ==> final(self)@.wf(),
    {
        if self.function_type_index == u32::MAX {
            return Err(Error::Unsupported);
        }
        self.tables.function_typedefs.insert(self.function_type_index, signature);
        self.function_type_index = self.function_type_index + 1;
        assert(self@.imports =~= old(self)@.imports);
        Ok(())
    }

    /// Takes an imported function into the module.
    pub fn add_import(&mut self, module: String, field: Option<String>, signature: u32) -> (r: Result<(), Error>)
        ensures
            old(self)@.takes_function() ==> r is Ok && final(self)@ == old(self)@.with_import(
                module@,
                match field {
                    Some(f) => Some(f@),
                    None => None,
                },
                signature,
            ),
            !old(self)@.takes_function() ==> r is Err && r->Err_0 is Unsupported && final(self)@
                == old(self)@,
            old(self)@.wf() ==> final(self)@.wf(),
    {
        if self.function_index == u32::MAX || self.function_body_index == u32::MAX || self.labels
            >= usize::MAX - 1 {
            return Err(Error::Unsupported);
        }
        let label: Label = self.labels;
        self.labels = self.labels + 1;
        self.label_indices.push((self.program.len(), label));
        self.program.push(Instr::Dq(UNLINKED));
        self.tables.ils.insert(self.function_index, label);
        self.tables.function_types.insert(self.function_index, signature);
        let pending = PendingImport { index: self.function_index, module, field, label };
        self.imports.push(pending);
        self.function_index = self.function_index + 1;
        self.function_body_index = self.function_body_index + 1;
        assert(self@.imports =~= old(self)@.imports.push(pending@));
        Ok(())
    }

    /// Takes a declared function into the module.
    pub fn add_function(&mut self, signature: u32) -> (r: Result<(), Error>)
        ensures
            old(self)@.takes_function() ==> r is Ok && final(self)@ == old(self)@.with_function(
                signature,
            ),
            !old(self)@.takes_function() ==> r is Err && r->Err_0 is Unsupported && final(self)@
                == old(self)@,
            old(self)@.wf() ==> final(self)@.wf(),
    {
        if self.function_index == u32::MAX || self.function_body_index == u32::MAX || self.labels
            >= usize::MAX - 1 {
            return Err(Error::Unsupported);
        }
        let slot_label: Label = self.labels;
        let entry_label: Label = self.labels + 1;
        self.labels = self.labels + 2;
        let at: usize = self.program.len();
        self.label_indices.push((at, slot_label));
        self.program.push(Instr::Dq(0));
        self.module.record_function(self.function_index, at);
        self.slots.push((slot_label, entry_label, self.function_index));
        self.tables.got.insert(self.function_index, entry_label);
        self.tables.function_types.insert(self.function_index, signature);
        self.function_index = self.function_index + 1;
        assert(self@.imports =~= old(self)@.imports);
        Ok(())
    }

    /// Records that `name` stands for `index`.
    pub fn add_export(&mut self, name: String, index: u32)
        ensures
            final(self)@ == old(self)@.with_export(name@, index),
            old(self)@.wf() ==> final(self)@.wf(),
    {
        self.module.record_export(name, index);
        assert(self@.imports =~= old(self)@.imports);
        assert(self@.function_bodies == old(self)@.function_bodies);
        assert(self@.module.heights == old(self)@.module.heights);
        assert(self@.module.imports == old(self)@.module.imports);
        assert(self@.module.bodies == old(self)@.module.bodies);
        assert(self@.module.frames == old(self)@.module.frames);
        assert(self@.module.slots == old(self)@.module.slots);
    }

    /// Records a memory.
    pub fn add_memory(&mut self, memory: MemoryType)
        ensures
            final(self)@ == old(self)@.with_memory(memory),
            old(self)@.wf() ==> final(self)@.wf(),
    {
        self.module.record_memory(memory);
        assert(self@.imports =~= old(self)@.imports);
        assert(self@.function_bodies == old(self)@.function_bodies);
        assert(self@.module.heights == old(self)@.module.heights);
        assert(self@.module.imports == old(self)@.module.imports);
        assert(self@.module.bodies == old(self)@.module.bodies);
        assert(self@.module.frames == old(self)@.module.frames);
        assert(self@.module.slots == old(self)@.module.slots);
    }

    /// Begins the body of the next function: its label marks the next
    /// instruction. Where the function's signature or label is not known,
    /// nothing changes.
    pub fn begin_body(&mut self) -> (r: Result<BodyStart, Error>)
        ensures
            match old(self)@.next_body() {
                Some((signature, label)) => {
                    &&& r is Ok
                    &&& r->Ok_0.index == old(self)@.function_body_index
                    &&& r->Ok_0.label == label
                    &&& r->Ok_0.params@ == signature.params@
                    &&& r->Ok_0.results@ == signature.results@
                    &&& final(self)@ == old(self)@.with_body_begun(label)
                },
                None => r is Err && r->Err_0 is Inconsistent && final(self)@ == old(self)@,
            },
            old(self)@.wf() ==> final(self)@.wf(),
    {
        let index: u32 = self.function_body_index;
        let type_index: u32 = match self.tables.function_types.get(&index) {
            Some(t) => *t,
            None => {
                return Err(Error::Inconsistent);
            },
        };
        let (params, results) = match self.tables.function_typedefs.get(&type_index) {
            Some(signature) => (copy_types(&signature.params), copy_types(&signature.results)),
            None => {
                return Err(Error::Inconsistent);
            },
        };
        let label: Label = match self.tables.got.get(&index) {
            Some(l) => *l,
            None => {
                return Err(Error::Inconsistent);
            },
        };
        self.label_indices.push((self.program.len(), label));
        assert(self@.imports =~= old(self)@.imports);
        Ok(BodyStart { index, label, params, results })
    }

    /// Emits the prologue of a function with the parameters and the frame
    /// given.
    pub fn prologue(&mut self, params: &Vec<ValueType>, frame: &Frame) -> (r: Result<(), Error>)
        requires
            frame.wf(),
            params@.len() <= frame.types().len(),
            frame.types().take(params@.len() as int) == params@,
        ensures
            r is Ok <==> all_integers(params@) && frame_bytes(params@) + FIRST_STACK_ARG
                <= i32::MAX,
            r is Ok ==> final(self)@ == old(self)@.with_code(
                prologue_spec(params@, frame.locals(), frame.size_spec()),
            ),
            r is Err ==> r->Err_0 is Unsupported && final(self)@ == old(self)@,
            old(self)@.wf() ==> final(self)@.wf(),
    {
        let r = emit_prologue(&mut self.program, params, frame);
        assert(self@.imports =~= old(self)@.imports);
        assert(self@.function_bodies == old(self)@.function_bodies);
        assert(self@.module == old(self)@.module);
        r
    }

    /// Emits the code of one operator of a function with the locals given.
    pub fn operator(&mut self, locals: &Vec<Local>, op: Op) -> (r: Result<(), Error>)
        ensures
            match lower_spec(old(self)@.tables, locals@, op) {
                Some(code) => r is Ok && final(self)@ == old(self)@.with_code(code),
                None => r is Err && r->Err_0 is Unsupported && final(self)@ == old(self)@,
            },
            old(self)@.wf() ==> final(self)@.wf(),
    {
        let r = handle_instruction(&mut self.program, &self.tables, locals, op);
        assert(self@.imports =~= old(self)@.imports);
        assert(self@.function_bodies == old(self)@.function_bodies);
        assert(self@.module == old(self)@.module);
        r
    }

    /// Ends the body of a function: emits its epilogue and records it with
    /// the greatest depth of its operand stack. Results that are not integers
    /// are refused, and nothing changes.
    pub fn end_body(&mut self, start: &BodyStart, size: u32, peak: u32) -> (r: Result<(), Error>)
        ensures
            all_integers(start.results@) && old(self)@.function_body_index < u32::MAX ==> r is Ok
                && final(self)@ == old(self)@.with_body_ended(
                start.index,
                start.label,
                start.results@,
                size,
                peak,
            ),
            !(all_integers(start.results@) && old(self)@.function_body_index < u32::MAX) ==> r is Err
                && r->Err_0 is Unsupported && final(self)@ == old(self)@,
            old(self)@.wf() ==> final(self)@.wf(),
    {
        if self.function_body_index == u32::MAX {
            return Err(Error::Unsupported);
        }
        match emit_epilogue(&mut self.program, &start.results, size) {
            Ok(()) => {},
            Err(e) => {
                assert(self@.imports =~= old(self)@.imports);
                return Err(e);
            },
        }
        self.function_bodies.push((start.label, start.index));
        self.module.record_height(start.index, peak);
        self.function_body_index = self.function_body_index + 1;
        assert(self@.imports =~= old(self)@.imports);
        proof {
            if old(self)@.wf() {
                assert forall|k: int| 0 <= k < self@.function_bodies.len() implies self@.module.heights.contains_key(
                    (#[trigger] self@.function_bodies[k]).1,
                ) by {
                    if k < old(self)@.function_bodies.len() {
                        assert(self@.function_bodies[k] == old(self)@.function_bodies[k]);
                    }
                }
            }
        }
        Ok(())
    }
}

/// The label table after the optimization of `program`.
pub open spec fn relabelled(program: Seq<Instr>, table: Seq<(usize, Label)>) -> Seq<(usize, Label)> {
    Seq::new(table.len(), |k: int| relabel_final(program, table[k]))
}

/// Whether the code of a function whose start `label` marks stays in the
/// program when the session ends: the label still marks an instruction after
/// the optimization.
pub open spec fn body_stays(s: SessionView, label: Label) -> bool {
    placed(relabelled(s.program, s.label_indices), optimize_spec(s.program).len() as int, label)
}

/// A copy of a name that may be missing.
fn copy_name(name: &Option<String>) -> (copy: Option<String>)
    ensures
        copy == *name,
{
    match name {
        Some(n) => Some(n.clone()),
        None => None,
    }
}

/// Puts `value` in the eight bytes at `at`, least significant byte first.
fn write_slot(bytes: &mut Vec<u8>, at: usize, value: u64)
    requires
        at + 8 <= old(bytes)@.len(),
    ensures
        final(bytes)@ == patched(old(bytes)@, at as int, value),
        final(bytes)@.len() == old(bytes)@.len(),
{
    let image: [u8; 8] = le_bytes(value);
    let ghost before = bytes@;
    let total: usize = bytes.len();
    let mut k: usize = 0;
    while k < 8
        invariant
            0 <= k <= 8,
            total == before.len(),
            at + 8 <= before.len(),
            bytes@.len() == before.len(),
            image@ == spec_u64_to_le_bytes(value),
            forall|j: int| 0 <= j < k ==> bytes@[at + j] == image@[j],
            forall|j: int| 0 <= j < before.len() && !(at <= j < at + k) ==> bytes@[j] == before[j],
        decreases 8 - k,
    {
        bytes.set(at + k, image[k]);
        k = k + 1;
    }
    proof {
        vstd::bytes::spec_u64_to_le_bytes_to_open(value);
        assert(bytes@ =~= patched(before, at as int, value));
    }
}

/// Whether the eight bytes at `at` are those of `mark`.
fn holds_mark(bytes: &Vec<u8>, at: usize, mark: &[u8; 8]) -> (b: bool)
    requires
        at + 8 <= bytes@.len(),
    ensures
        b == (slot(bytes@, at as int) == mark@),
{
    let total: usize = bytes.len();
    let mut j: usize = 0;
    while j < 8
        invariant
            0 <= j <= 8,
            total == bytes@.len(),
            at + 8 <= bytes@.len(),
            forall|i: int| 0 <= i < j ==> bytes@[at + i] == mark@[i],
        decreases 8 - j,
    {
        if bytes[at + j] != mark[j] {
            assert(slot(bytes@, at as int)[j as int] != mark@[j as int]);
            return false;
        }
        j = j + 1;
    }
    assert(slot(bytes@, at as int) =~= mark@);
    true
}

/// The index of the instruction that the first entry of the table from
/// `from` on puts `label` on, among the entries that put it on one of `n`
/// instructions.
pub open spec fn marked_at(table: Seq<(usize, Label)>, n: int, label: Label, from: int) -> Option<int>
    decreases table.len() - from,
{
    if from < 0 || from >= table.len() {
        None
    } else if table[from].1 == label && table[from].0 < n {
        Some(table[from].0 as int)
    } else {
        marked_at(table, n, label, from + 1)
    }
}

/// The index of the instruction that the table's first entry for `label`
/// within a program of `n` instructions marks.
fn marked_instruction(table: &Vec<(usize, Label)>, n: usize, label: Label) -> (at: Option<usize>)
    ensures
        at is Some <==> placed(table@, n as int, label),
        at is Some ==> at->Some_0 < n,
        match at {
            Some(i) => marked_at(table@, n as int, label, 0) == Some(i as int),
            None => marked_at(table@, n as int, label, 0) is None,
        },
{
    let mut k: usize = 0;
    while k < table.len()
        invariant
            0 <= k <= table@.len(),
            forall|j: int| 0 <= j < k ==> !((#[trigger] table@[j]).1 == label && table@[j].0 < n),
            marked_at(table@, n as int, label, 0) == marked_at(table@, n as int, label, k as int),
        decreases table@.len() - k,
    {
        let entry: (usize, Label) = table[k];
        if entry.1 == label && entry.0 < n {
            assert(table@[k as int].1 == label && table@[k as int].0 < n);
            return Some(entry.0);
        }
        k = k + 1;
    }
    None
}

/// The code after the slots of the first `n` declared functions are filled
/// in: the slot of a function holds the offset of its start, where both have
/// an offset and the slot lies within the code.
pub open spec fn patched_code(s: SessionView, n: int) -> Seq<u8>
    decreases n,
{
    if n <= 0 {
        final_code(s)
    } else {
        let held = patched_code(s, n - 1);
        match (final_offset(s, s.slots[n - 1].0), final_offset(s, s.slots[n - 1].1)) {
            (Some(at), Some(start)) => if at + SLOT_BYTES <= held.len() {
                patched(held, at as int, start as u64)
            } else {
                held
            },
            _ => held,
        }
    }
}

/// The code of the module that a session ends in.
pub open spec fn final_binary(s: SessionView) -> Seq<u8> {
    patched_code(s, s.slots.len() as int)
}

/// Whether the slot of declared function `n` lies within the code, where it
/// is filled in.
pub open spec fn slot_fits(s: SessionView, n: int) -> bool {
    match (final_offset(s, s.slots[n].0), final_offset(s, s.slots[n].1)) {
        (Some(at), Some(_)) => at + SLOT_BYTES <= final_code(s).len(),
        _ => true,
    }
}

/// The offset of the slot of import `i`.
pub open spec fn import_at(s: SessionView, i: int) -> Option<usize> {
    final_offset(s, s.imports[i].label)
}

/// Whether the eight bytes at `at` share no byte with the slot of any of the
/// first `upto` imports.
pub open spec fn apart_from_imports(s: SessionView, upto: int, at: usize) -> bool {
    forall|j: int|
        0 <= j < upto ==> match #[trigger] import_at(s, j) {
            Some(p) => p + SLOT_BYTES <= at || at + SLOT_BYTES <= p,
            None => true,
        }
}

/// Whether the byte at `at` lies outside the slot of every import.
pub open spec fn clear_of_imports(s: SessionView, at: usize) -> bool {
    forall|j: int|
        0 <= j < s.imports.len() ==> match #[trigger] import_at(s, j) {
            Some(p) => !(p <= at < p + SLOT_BYTES),
            None => true,
        }
}

/// Whether import `i` can be recorded: its slot has an offset, lies within
/// the code apart from the slots of the imports before it, holds the mark of
/// an unlinked import, and its index is greater than that of the import
/// before it.
pub open spec fn import_fits(s: SessionView, i: int) -> bool {
    match import_at(s, i) {
        Some(o) => {
            &&& o + SLOT_BYTES <= final_code(s).len()
            &&& slot(final_binary(s), o as int) == spec_u64_to_le_bytes(UNLINKED)
            &&& apart_from_imports(s, i, o)
            &&& (i > 0 ==> s.imports[i - 1].index < s.imports[i].index)
        },
        None => false,
    }
}

/// Whether the code of a function still begins by saving `rbp` after the
/// optimization: the instruction that its label marks is `push rbp`.
pub open spec fn framed(s: SessionView, label: Label) -> bool {
    match marked_at(
        relabelled(s.program, s.label_indices),
        optimize_spec(s.program).len() as int,
        label,
        0,
    ) {
        Some(at) => optimize_spec(s.program)[at] == Instr::Push(Reg::Rbp),
        None => false,
    }
}

/// Whether the start of emitted function `k` can be recorded: its label was
/// handed out; and where its code stays in the program, it starts within the
/// code, and, where it keeps its frame, with the byte of `push rbp` outside
/// the slots of all imports.
pub open spec fn body_fits(s: SessionView, k: int) -> bool {
    let label = s.function_bodies[k].0;
    &&& label < s.labels
    &&& match final_offset(s, label) {
        Some(o) => {
            &&& o < final_code(s).len()
            &&& framed(s, label) ==> final_binary(s)[o as int] == PUSH_RBP && clear_of_imports(
                s,
                o,
            )
        },
        None => true,
    }
}

/// The start that is recorded for function `f` after the first `k` emitted
/// functions: that of the last of them that is `f` and stays in the program.
pub open spec fn recorded(s: SessionView, f: u32, k: int) -> Option<usize>
    decreases k,
{
    if k <= 0 {
        None
    } else if s.function_bodies[k - 1].1 == f && final_offset(s, s.function_bodies[k - 1].0)
        is Some {
        final_offset(s, s.function_bodies[k - 1].0)
    } else {
        recorded(s, f, k - 1)
    }
}

/// Whether the slot of declared function `n` can be recorded, where the slot
/// has an offset and the function a start: it lies within the code apart from
/// the slots of all imports, and holds the start of the function.
pub open spec fn slot_holds(s: SessionView, n: int) -> bool {
    match (
        final_offset(s, s.slots[n].0),
        recorded(s, s.slots[n].2, s.function_bodies.len() as int),
    ) {
        (Some(at), Some(start)) => {
            &&& at + SLOT_BYTES <= final_code(s).len()
            &&& slot(final_binary(s), at as int) == spec_u64_to_le_bytes(start as u64)
            &&& apart_from_imports(s, s.imports.len() as int, at)
        },
        _ => true,
    }
}

/// Whether a session ends in a module: the encoder takes and encodes the
/// optimized program, and every slot, import and function start that is
/// recorded lies where it must and holds what it must.
pub open spec fn finishes(s: SessionView) -> bool {
    &&& assembles(
        optimize_spec(s.program),
        relabelled(s.program, s.label_indices),
        s.labels as int,
    )
    &&& forall|n: int| 0 <= n < s.slots.len() ==> #[trigger] slot_fits(s, n)
    &&& forall|i: int| 0 <= i < s.imports.len() ==> #[trigger] import_fits(s, i)
    &&& forall|k: int| 0 <= k < s.function_bodies.len() ==> #[trigger] body_fits(s, k)
    &&& forall|n: int| 0 <= n < s.slots.len() ==> #[trigger] slot_holds(s, n)
}

impl Session {
    /// Ends the compilation: the program is optimized and encoded, the slot of
    /// every import is recorded, and so is the start of every function whose
    /// code stays in the program, with whether it still begins by saving
    /// `rbp`. The result is refused where the encoder puts a function or a
    /// slot outside the code, where a slot does not hold the mark of an
    /// unlinked import, or where a function that keeps its frame does not
    /// begin, outside all slots, with the byte of `push rbp`.
    pub fn finish(self) -> (r: Result<AssembledModule, Error>)
        requires
            self@.wf(),
        ensures
            r is Ok <==> finishes(self@),
            r is Ok ==> finished(self@, r->Ok_0@),
            r is Ok && settled(self@) ==> complete(self@, r->Ok_0@),
            r is Err ==> r->Err_0 is AssemblerError || r->Err_0 is Inconsistent,
            all_labels_known(
                optimize_spec(self@.program),
                relabelled(self@.program, self@.label_indices),
                self@.labels as int,
            ) && final_lines(self@).len() <= usize::MAX && !encodes(final_lines(self@)) ==> r is Err
                && r->Err_0 is AssemblerError,
    {
        let ghost start = self@;
        let Session {
            module,
            program,
            tables,
            label_indices,
            function_bodies,
            slots,
            imports,
            labels,
            function_index,
            function_body_index,
            function_type_index,
        } = self;
        let mut module: Module = module;
        let mut label_indices: Vec<(usize, Label)> = label_indices;
        let ghost table = label_indices@;
        let ghost source = program@;
        let program: Vec<Instr> = optimize(program, &mut label_indices);
        assert(label_indices@ =~= relabelled(source, table));
        let assembly: Assembly = assemble_program(&program, &label_indices, labels)?;
        let Assembly { bytes, offsets } = assembly;
        let mut bytes: Vec<u8> = bytes;
        let total: usize = bytes.len();
        let ghost code = bytes@;
        proof {
            assert(final_lines(start) == lines_of(program@, label_indices@));
            assert(code == final_code(start));
            assert forall|l: Label| 0 <= l < labels implies #[trigger] offsets@[l as int]
                == final_offset(start, l) by {}
        }
        let mut n: usize = 0;
        while n < slots.len()
            invariant
                0 <= n <= slots@.len(),
                total == bytes@.len(),
                total == code.len(),
                slots@ == start.slots,
                labels == start.labels,
                offsets@.len() == labels,
                encoding(final_lines(start)) is Some,
                forall|l: Label|
                    0 <= l < labels ==> #[trigger] offsets@[l as int] == final_offset(start, l),
                forall|j: int|
                    0 <= j < total && !filled(start, n as int, j) ==> #[trigger] bytes@[j]
                        == code[j],
                code == final_code(start),
                bytes@ == patched_code(start, n as int),
                forall|j: int| 0 <= j < n ==> #[trigger] slot_fits(start, j),
                assembles(
                    optimize_spec(start.program),
                    relabelled(start.program, start.label_indices),
                    start.labels as int,
                ),
                start == self@,
            decreases slots@.len() - n,
        {
            let entry: (Label, Label, u32) = slots[n];
            let ghost held = bytes@;
            if entry.0 < offsets.len() && entry.1 < offsets.len() {
                match (offsets[entry.0], offsets[entry.1]) {
                    (Some(at), Some(start_of)) => {
                        if total < 8 || at > total - 8 {
                            assert(!slot_fits(start, n as int));
                            return Err(Error::Inconsistent);
                        }
                        write_slot(&mut bytes, at, start_of as u64);
                        proof {
                            lemma_patched(held, at as int, start_of as u64);
                        }
                    },
                    _ => {},
                }
            }
            proof {
                assert forall|j: int|
                    0 <= j < total && !filled(start, n + 1, j) implies #[trigger] bytes@[j]
                    == code[j] by {
                    assert(!filled(start, n as int, j));
                    assert(bytes@[j] == held[j]);
                }
                assert(bytes@ == patched_code(start, n + 1));
                assert(slot_fits(start, n as int));
            }
            n = n + 1;
        }
        let mark: [u8; 8] = le_bytes(UNLINKED);
        let mut i: usize = 0;
        while i < imports.len()
            invariant
                0 <= i <= imports@.len(),
                start.imports.len() == imports@.len(),
                forall|j: int|
                    0 <= j < imports@.len() ==> start.imports[j] == (#[trigger] imports@[j])@,
                total == bytes@.len(),
                offsets@.len() == labels,
                mark@ == spec_u64_to_le_bytes(UNLINKED),
                module@.functions == start.module.functions,
                module@.heights == start.module.heights,
                module@.exports == start.module.exports,
                module@.memories == start.module.memories,
                module@.bodies == start.module.bodies,
                module@.frames == start.module.frames,
                module@.slots == start.module.slots,
                module@.imports.len() == i,
                forall|a: int, b: int|
                    0 <= a < b < i ==> (#[trigger] module@.imports[a]).index < (
                    #[trigger] module@.imports[b]).index && apart(
                        module@.imports[a],
                        module@.imports[b].offset,
                    ),
                forall|j: int|
                    0 <= j < i ==> {
                        let import = #[trigger] module@.imports[j];
                        &&& import.index == start.imports[j].index
                        &&& import.module == start.imports[j].module
                        &&& import.field == start.imports[j].field
                        &&& import.offset + SLOT_BYTES <= total
                        &&& slot(bytes@, import.offset as int) == spec_u64_to_le_bytes(UNLINKED)
                        &&& final_offset(start, start.imports[j].label) == Some(import.offset)
                    },
                labels == start.labels,
                forall|l: Label|
                    0 <= l < labels ==> #[trigger] offsets@[l as int] == final_offset(start, l),
                total == final_code(start).len(),
                bytes@ == final_binary(start),
                forall|j: int| 0 <= j < i ==> #[trigger] import_fits(start, j),
                forall|j: int| 0 <= j < start.slots.len() ==> #[trigger] slot_fits(start, j),
                assembles(
                    optimize_spec(start.program),
                    relabelled(start.program, start.label_indices),
                    start.labels as int,
                ),
                start == self@,
            decreases imports@.len() - i,
        {
            let pending: &PendingImport = &imports[i];
            assert(start.imports[i as int] == pending@);
            if pending.label >= offsets.len() {
                assert(!import_fits(start, i as int));
                return Err(Error::Inconsistent);
            }
            assert(offsets@[pending.label as int] == final_offset(start, pending.label));
            let offset: usize = match offsets[pending.label] {
                Some(o) => o,
                None => {
                    assert(!import_fits(start, i as int));
                    return Err(Error::Inconsistent);
                },
            };
            if total < 8 || offset > total - 8 {
                assert(!import_fits(start, i as int));
                return Err(Error::Inconsistent);
            }
            proof {
                if apart_from_imports(start, i as int, offset) {
                    assert forall|j: int| 0 <= j < module@.imports.len() implies apart(
                        #[trigger] module@.imports[j],
                        offset,
                    ) by {
                        assert(import_at(start, j) == Some(module@.imports[j].offset));
                    }
                }
                if apart_from(module@.imports, offset) {
                    assert forall|j: int| 0 <= j < i implies match #[trigger] import_at(start, j) {
                        Some(p) => p + SLOT_BYTES <= offset || offset + SLOT_BYTES <= p,
                        None => true,
                    } by {
                        assert(apart(module@.imports[j], offset));
                    }
                }
            }
            if !holds_mark(&bytes, offset, &mark) || !module.apart_from_slots(offset) {
                assert(!import_fits(start, i as int));
                return Err(Error::Inconsistent);
            }
            match module.last_import() {
                Some(index) => {
                    if index >= pending.index {
                        assert(module@.imports.last() == module@.imports[i - 1]);
                        assert(!import_fits(start, i as int));
                        return Err(Error::Inconsistent);
                    }
                    assert(module@.imports.last() == module@.imports[i - 1]);
                },
                None => {},
            }
            assert(import_fits(start, i as int));
            let import = Import {
                index: pending.index,
                module: pending.module.clone(),
                field: copy_name(&pending.field),
                offset,
            };
            let ghost before = module@.imports;
            module.record_import(import);
            proof {
                assert forall|a: int, b: int| 0 <= a < b < i + 1 implies (
                #[trigger] module@.imports[a]).index < (#[trigger] module@.imports[b]).index
                    && apart(module@.imports[a], module@.imports[b].offset) by {
                    assert(module@.imports[a] == before[a]);
                    if b < i {
                        assert(module@.imports[b] == before[b]);
                    } else {
                        assert(apart(before[a], offset));
                        if a + 1 < i {
                            assert(before[a].index < before[i - 1].index);
                        }
                    }
                }
                assert forall|j: int| 0 <= j < i + 1 implies {
                    let import = #[trigger] module@.imports[j];
                    &&& import.index == start.imports[j].index
                    &&& import.module == start.imports[j].module
                    &&& import.field == start.imports[j].field
                    &&& import.offset + SLOT_BYTES <= total
                    &&& slot(bytes@, import.offset as int) == spec_u64_to_le_bytes(UNLINKED)
                    &&& final_offset(start, start.imports[j].label) == Some(import.offset)
                } by {
                    if j < i {
                        assert(module@.imports[j] == before[j]);
                    } else {
                        assert(offsets@[pending.label as int] == final_offset(
                            start,
                            pending.label,
                        ));
                    }
                }
            }
            i = i + 1;
        }
        let ghost linked = module@.imports;
        let mut k: usize = 0;
        while k < function_bodies.len()
            invariant
                0 <= k <= function_bodies@.len(),
                start.wf(),
                start.function_bodies == function_bodies@,
                total == bytes@.len(),
                offsets@.len() == labels,
                forall|l: Label|
                    0 <= l < labels ==> (#[trigger] offsets@[l as int] is Some) == placed(
                        label_indices@,
                        program@.len() as int,
                        l,
                    ),
                module@.functions == start.module.functions,
                module@.heights == start.module.heights,
                module@.exports == start.module.exports,
                module@.memories == start.module.memories,
                module@.imports == linked,
                module@.slots == start.module.slots,
                forall|f: u32| #[trigger]
                    module@.bodies.contains_key(f) ==> module@.bodies[f] < total
                        && module@.heights.contains_key(f),
                module@.frames.dom() =~= module@.bodies.dom(),
                forall|f: u32|
                    module@.frames.contains_key(f) && #[trigger] module@.frames[f] ==> {
                        &&& module@.bodies.contains_key(f)
                        &&& bytes@[module@.bodies[f] as int] == PUSH_RBP
                        &&& clear_of(linked, module@.bodies[f])
                    },
                forall|j: int|
                    0 <= j < k && placed(
                        label_indices@,
                        program@.len() as int,
                        (#[trigger] function_bodies@[j]).0,
                    ) ==> module@.bodies.contains_key(function_bodies@[j].1),
                forall|f: u32| #[trigger]
                    module@.bodies.contains_key(f) ==> exists|j: int|
                        0 <= j < function_bodies@.len() && (#[trigger] function_bodies@[j]).1 == f
                            && placed(label_indices@, program@.len() as int, function_bodies@[j].0)
                            && final_offset(start, function_bodies@[j].0) == Some(
                            module@.bodies[f],
                        ),
                labels == start.labels,
                forall|l: Label|
                    0 <= l < labels ==> #[trigger] offsets@[l as int] == final_offset(start, l),
                total == final_code(start).len(),
                bytes@ == final_binary(start),
                program@ == optimize_spec(start.program),
                label_indices@ == relabelled(start.program, start.label_indices),
                linked.len() == start.imports.len(),
                forall|j: int|
                    0 <= j < linked.len() ==> #[trigger] import_at(start, j) == Some(
                        linked[j].offset,
                    ),
                forall|j: int| 0 <= j < k ==> #[trigger] body_fits(start, j),
                forall|f: u32|
                    (if module@.bodies.contains_key(f) {
                        Some(module@.bodies[f])
                    } else {
                        None
                    }) == #[trigger] recorded(start, f, k as int),
                forall|j: int| 0 <= j < start.slots.len() ==> #[trigger] slot_fits(start, j),
                forall|j: int| 0 <= j < start.imports.len() ==> #[trigger] import_fits(start, j),
                assembles(
                    optimize_spec(start.program),
                    relabelled(start.program, start.label_indices),
                    start.labels as int,
                ),
                start == self@,
            decreases function_bodies@.len() - k,
        {
            let entry: (Label, u32) = function_bodies[k];
            if entry.0 >= offsets.len() {
                assert(!body_fits(start, k as int));
                return Err(Error::Inconsistent);
            }
            assert(offsets@[entry.0 as int] == final_offset(start, entry.0));
            match offsets[entry.0] {
                Some(offset) => {
                    if offset >= total {
                        assert(!body_fits(start, k as int));
                        return Err(Error::Inconsistent);
                    }
                    let keeps: bool = match marked_instruction(
                        &label_indices,
                        program.len(),
                        entry.0,
                    ) {
                        Some(at) => match program[at] {
                            Instr::Push(reg) => reg == Reg::Rbp,
                            _ => false,
                        },
                        None => false,
                    };
                    proof {
                        assert(keeps == framed(start, entry.0));
                        if clear_of_imports(start, offset) {
                            assert forall|j: int| 0 <= j < linked.len() implies !in_slot(
                                #[trigger] linked[j],
                                offset,
                            ) by {
                                assert(import_at(start, j) == Some(linked[j].offset));
                            }
                        }
                        if clear_of(linked, offset) {
                            assert forall|j: int| 0 <= j < start.imports.len() implies match #[trigger] import_at(
                                start,
                                j,
                            ) {
                                Some(p) => !(p <= offset < p + SLOT_BYTES),
                                None => true,
                            } by {
                                assert(!in_slot(linked[j], offset));
                            }
                        }
                    }
                    if keeps && (bytes[offset] != PUSH_RBP || !module.clear_of_slots(offset)) {
                        assert(!body_fits(start, k as int));
                        return Err(Error::Inconsistent);
                    }
                    assert(body_fits(start, k as int));
                    assert(start.module.heights.contains_key(start.function_bodies[k as int].1));
                    let ghost before = module@.bodies;
                    module.record_body(entry.1, offset, keeps);
                    proof {
                        assert(function_bodies@[k as int].1 == entry.1 && placed(
                            label_indices@,
                            program@.len() as int,
                            function_bodies@[k as int].0,
                        ));
                        assert(offsets@[entry.0 as int] == final_offset(start, entry.0));
                        assert forall|f: u32|
                            (if module@.bodies.contains_key(f) {
                                Some(module@.bodies[f])
                            } else {
                                None
                            }) == #[trigger] recorded(start, f, k + 1) by {
                            assert(recorded(start, f, k as int) == (if before.contains_key(f) {
                                Some(before[f])
                            } else {
                                None
                            }));
                        }
                        assert forall|f: u32| #[trigger]
                            module@.bodies.contains_key(f) implies exists|j: int|
                            0 <= j < function_bodies@.len() && (#[trigger] function_bodies@[j]).1
                                == f && placed(
                                label_indices@,
                                program@.len() as int,
                                function_bodies@[j].0,
                            ) && final_offset(start, function_bodies@[j].0) == Some(
                                module@.bodies[f],
                            ) by {
                            if f != entry.1 {
                                assert(before.contains_key(f));
                                assert(module@.bodies[f] == before[f]);
                            }
                        }
                    }
                },
                None => {
                    assert(body_fits(start, k as int));
                    assert forall|f: u32|
                        (if module@.bodies.contains_key(f) {
                            Some(module@.bodies[f])
                        } else {
                            None
                        }) == #[trigger] recorded(start, f, k + 1) by {
                        assert(recorded(start, f, k as int) == (if module@.bodies.contains_key(f) {
                            Some(module@.bodies[f])
                        } else {
                            None
                        }));
                    }
                },
            }
            k = k + 1;
        }
        let ghost coded = module@.bodies;
        let mut n: usize = 0;
        while n < slots.len()
            invariant
                0 <= n <= slots@.len(),
                total == bytes@.len(),
                offsets@.len() == labels,
                module@.functions == start.module.functions,
                module@.heights == start.module.heights,
                module@.exports == start.module.exports,
                module@.memories == start.module.memories,
                module@.imports == linked,
                module@.bodies == coded,
                slots@ == start.slots,
                labels == start.labels,
                forall|l: Label|
                    0 <= l < labels ==> #[trigger] offsets@[l as int] == final_offset(start, l),
                forall|f: u32| #[trigger]
                    module@.slots.contains_key(f) ==> exists|j: int|
                        0 <= j < slots@.len() && (#[trigger] slots@[j]).2 == f && final_offset(
                            start,
                            slots@[j].0,
                        ) == Some(module@.slots[f]),
                module@.frames.dom() == coded.dom(),
                forall|f: u32| #[trigger]
                    coded.contains_key(f) ==> coded[f] < total && module@.heights.contains_key(f),
                forall|f: u32|
                    module@.frames.contains_key(f) && #[trigger] module@.frames[f] ==> {
                        &&& bytes@[coded[f] as int] == PUSH_RBP
                        &&& clear_of(linked, coded[f])
                    },
                forall|f: u32| #[trigger]
                    module@.slots.contains_key(f) ==> {
                        &&& coded.contains_key(f)
                        &&& module@.slots[f] + SLOT_BYTES <= total
                        &&& slot(bytes@, module@.slots[f] as int) == spec_u64_to_le_bytes(
                            coded[f] as u64,
                        )
                        &&& apart_from(linked, module@.slots[f])
                    },
                total == final_code(start).len(),
                bytes@ == final_binary(start),
                linked.len() == start.imports.len(),
                forall|j: int|
                    0 <= j < linked.len() ==> #[trigger] import_at(start, j) == Some(
                        linked[j].offset,
                    ),
                forall|f: u32|
                    (if coded.contains_key(f) {
                        Some(coded[f])
                    } else {
                        None
                    }) == #[trigger] recorded(start, f, start.function_bodies.len() as int),
                forall|j: int| 0 <= j < n ==> #[trigger] slot_holds(start, j),
                forall|j: int| 0 <= j < start.slots.len() ==> #[trigger] slot_fits(start, j),
                forall|j: int| 0 <= j < start.imports.len() ==> #[trigger] import_fits(start, j),
                forall|j: int|
                    0 <= j < start.function_bodies.len() ==> #[trigger] body_fits(start, j),
                assembles(
                    optimize_spec(start.program),
                    relabelled(start.program, start.label_indices),
                    start.labels as int,
                ),
                start == self@,
            decreases slots@.len() - n,
        {
            let entry: (Label, Label, u32) = slots[n];
            proof {
                assert(recorded(start, entry.2, start.function_bodies.len() as int) == (
                if coded.contains_key(entry.2) {
                    Some(coded[entry.2])
                } else {
                    None
                }));
                if entry.0 < labels {
                    assert(offsets@[entry.0 as int] == final_offset(start, entry.0));
                }
            }
            if entry.0 < offsets.len() {
                match (offsets[entry.0], module.body_offset(entry.2)) {
                    (Some(at), Some(start_of)) => {
                        if total < 8 || at > total - 8 {
                            assert(!slot_holds(start, n as int));
                            return Err(Error::Inconsistent);
                        }
                        let wanted: [u8; 8] = le_bytes(start_of as u64);
                        proof {
                            if apart_from_imports(start, start.imports.len() as int, at) {
                                assert forall|j: int| 0 <= j < linked.len() implies apart(
                                    #[trigger] linked[j],
                                    at,
                                ) by {
                                    assert(import_at(start, j) == Some(linked[j].offset));
                                }
                            }
                            if apart_from(linked, at) {
                                assert forall|j: int|
                                    0 <= j < start.imports.len() implies match #[trigger] import_at(
                                    start,
                                    j,
                                ) {
                                    Some(p) => p + SLOT_BYTES <= at || at + SLOT_BYTES <= p,
                                    None => true,
                                } by {
                                    assert(apart(linked[j], at));
                                }
                            }
                        }
                        if !holds_mark(&bytes, at, &wanted) || !module.apart_from_slots(at) {
                            assert(!slot_holds(start, n as int));
                            return Err(Error::Inconsistent);
                        }
                        assert(slot_holds(start, n as int));
                        let ghost before = module@.slots;
                        module.record_slot(entry.2, at);
                        proof {
                            assert(slots@[n as int].2 == entry.2);
                            assert(offsets@[entry.0 as int] == final_offset(start, entry.0));
                            assert forall|f: u32| #[trigger]
                                module@.slots.contains_key(f) implies exists|j: int|
                                0 <= j < slots@.len() && (#[trigger] slots@[j]).2 == f
                                    && final_offset(start, slots@[j].0) == Some(
                                    module@.slots[f],
                                ) by {
                                if f != entry.2 {
                                    assert(before.contains_key(f));
                                    assert(module@.slots[f] == before[f]);
                                }
                            }
                        }
                    },
                    _ => {
                        assert(slot_holds(start, n as int));
                    },
                }
            } else {
                assert(slot_holds(start, n as int));
            }
            n = n + 1;
        }
        proof {
            assert(finishes(start));
            if settled(start) {
                assert forall|k: int| 0 <= k < start.function_bodies.len() implies body_stays(
                    start,
                    (#[trigger] start.function_bodies[k]).0,
                ) by {
                    let label = start.function_bodies[k].0;
                    let (t, j) = choose|t: int, j: int|
                        0 <= t < start.label_indices.len() && (
                        #[trigger] start.label_indices[t]).1 == label && guarded(
                            start.program,
                            start.label_indices[t].0 as int,
                        ) && start.label_indices[t].0 <= j < start.program.len()
                            && #[trigger] start.program[j] == Instr::Ret;
                    let i = start.label_indices[t].0 as int;
                    lemma_label_stays(start.program, i, j);
                    lemma_final_index_bounds(start.program, i);
                    let moved = relabelled(start.program, start.label_indices);
                    assert(moved[t].1 == label && moved[t].0 < optimize_spec(start.program).len());
                }
            }
        }
        Ok(module.assembled(bytes))
    }
}

} // verus!
