//! The compiler: it walks a module piece by piece, has every piece checked by
//! the validator, and emits code for what the piece declares.

use crate::error::Error;
use crate::frame::{all_sized, frame_bytes, frame_locals, prologue_spec, Frame};
use crate::lower::{lower_spec, Op};
use crate::module::AssembledModule;
use crate::session::{
    all_lowered, all_steps, complete, expand, finished, finishes, groups_sized, initial,
    lemma_all_steps_concat, lemma_replay_settled,
    lemma_expand_take, lemma_frame_bytes_repeat, lemma_replay_concat, lemma_replay_push,
    lemma_replay_memories, lemma_runs_take, lowered, memories_in, peak_height, recorded, replay,
    runs, steps, BodyStart, Event,
    Session, SessionView,
};
use crate::types::{MemoryType, Signature, ValueType};
use crate::wasm::{
    ahead, body_begin, body_of, check, closes, closing, declared,
    entry_views, export_views, exports_all, exports_of, function_finish, function_op,
    functions_all, functions_of, imports_all, imports_of, memories_all, memories_of,
    operator_shape, piece_of, shapes, source_new, source_step, types_all, types_of, Features,
    ImportEntry, Piece, Section,
};
use vstd::prelude::*;
use wasmparser_nostd::{
    BinaryReaderError, ExportSectionReader, FuncValidator, FunctionBody, FunctionSectionReader,
    ImportSectionReader, MemorySectionReader, TypeSectionReader, ValidatorResources,
};

verus! {

/// Something that compiles WebAssembly modules.
pub trait Compiler {
    type Error;

    type Module;

    fn compile(&self, module: &[u8]) -> Result<Self::Module, Self::Error>;
}

/// The compiler to x86-64 machine code.
pub struct X86_64Compiler;

impl core::default::Default for X86_64Compiler {
    fn default() -> Self {
        X86_64Compiler
    }
}

/// The features that the validator is asked to accept: all that it knows but
/// extended constant expressions.
pub open spec fn enabled() -> Features {
    Features {
        mutable_global: true,
        saturating_float_to_int: true,
        sign_extension: true,
        reference_types: true,
        multi_value: true,
        bulk_memory: true,
        module_linking: true,
        simd: true,
        relaxed_simd: true,
        threads: true,
        tail_call: true,
        deterministic_only: true,
        multi_memory: true,
        exceptions: true,
        memory64: true,
        extended_const: false,
    }
}

/// The features that the validator is asked to accept.
pub fn enabled_features() -> (f: Features)
    ensures
        f == enabled(),
{
    Features {
        mutable_global: true,
        saturating_float_to_int: true,
        sign_extension: true,
        reference_types: true,
        multi_value: true,
        bulk_memory: true,
        module_linking: true,
        simd: true,
        relaxed_simd: true,
        threads: true,
        tail_call: true,
        deterministic_only: true,
        multi_memory: true,
        exceptions: true,
        memory64: true,
        extended_const: false,
    }
}

fn rejected<T>(r: Result<T, BinaryReaderError>) -> (out: Result<T, Error>)
    ensures
        r is Ok <==> out is Ok,
        r is Ok ==> out->Ok_0 == r->Ok_0,
        r is Err ==> out->Err_0 == Error::ParserError(r->Err_0),
{
    match r {
        Ok(v) => Ok(v),
        Err(e) => Err(Error::ParserError(e)),
    }
}

/// What a piece asks of a session: where the piece is refused, the reader's
/// error; where the session takes every step of the piece, the session after
/// them; otherwise the error of the first step it does not take.
pub open spec fn absorbed(before: SessionView, after: SessionView, piece: Option<Piece>, r: Result<(), Error>) -> bool {
    match piece {
        None => r is Err && r->Err_0 is ParserError,
        Some(p) => if runs(before, steps(p)) {
            r is Ok && after == replay(before, steps(p)) && (before.wf() ==> after.wf())
        } else {
            r is Err && (r->Err_0 is Unsupported || r->Err_0 is UnsupportedType
                || r->Err_0 is Inconsistent)
        },
    }
}

/// The same values, last first.
fn reversed<T>(values: Vec<T>) -> (r: Vec<T>)
    ensures
        r@.len() == values@.len(),
        forall|i: int| 0 <= i < r@.len() ==> #[trigger] r@[i] == values@[values@.len() - 1 - i],
{
    let mut values = values;
    let ghost all = values@;
    let mut r: Vec<T> = Vec::new();
    while values.len() > 0
        invariant
            values@.len() + r@.len() == all.len(),
            values@ == all.subrange(0, values@.len() as int),
            forall|i: int| 0 <= i < r@.len() ==> #[trigger] r@[i] == all[all.len() - 1 - i],
        decreases values@.len(),
    {
        match values.pop() {
            Some(value) => {
                r.push(value);
            },
            None => {},
        }
    }
    r
}

/// Records every function signature of a type section, in order.
fn read_types<'a>(session: &mut Session, reader: TypeSectionReader<'a>) -> (r: Result<(), Error>)
    requires
        old(session)@.wf(),
    ensures
        absorbed(old(session)@, final(session)@, piece_of(Section::Types(reader), None), r),
{
    let entries: Vec<Option<Signature>> = rejected(types_all(reader))?;
    let ghost start = session@;
    let ghost events = steps(Piece::Types(entries@));
    let ghost all = entries@;
    let count: usize = entries.len();
    let mut left: Vec<Option<Signature>> = reversed(entries);
    let mut i: usize = 0;
    assert(events.take(0) =~= Seq::empty());
    while i < count
        invariant
            0 <= i <= count,
            count == all.len(),
            left@.len() == count - i,
            forall|j: int| 0 <= j < left@.len() ==> #[trigger] left@[j] == all[count - 1 - j],
            session@.wf(),
            start == old(session)@,
            events == steps(Piece::Types(all)),
            types_of(reader) == Some(all),
            runs(start, events.take(i as int)),
            replay(start, events.take(i as int)) == session@,
        decreases count - i,
    {
        proof {
            assert(events.take(i + 1) =~= events.take(i as int).push(events[i as int]));
            lemma_replay_push(start, events.take(i as int), events[i as int]);
            if runs(start, events) {
                lemma_runs_take(start, events, i as int);
            }
            assert(left@[left@.len() - 1] == all[i as int]);
        }
        match left.pop() {
            Some(Some(signature)) => {
                match session.add_type(signature) {
                    Ok(()) => {},
                    Err(e) => {
                        proof {
                            if runs(start, events) {
                                lemma_runs_take(start, events, i as int);
                            }
                        }
                        return Err(e);
                    },
                }
            },
            _ => {},
        }
        i = i + 1;
    }
    assert(events.take(i as int) =~= events);
    Ok(())
}

/// A copy of a name that may be missing.
fn copy_name(name: &Option<String>) -> (copy: Option<String>)
    ensures
        copy == *name,
{
    match name {
        Some(n) => Some(n.clone()),
        None => None,
    }
}

/// Takes every imported function of an import section into the module, in
/// order.
fn read_imports<'a>(session: &mut Session, reader: ImportSectionReader<'a>) -> (r: Result<(), Error>)
    requires
        old(session)@.wf(),
    ensures
        absorbed(old(session)@, final(session)@, piece_of(Section::Imports(reader), None), r),
{
    let entries: Vec<ImportEntry> = rejected(imports_all(reader))?;
    let ghost start = session@;
    let ghost events = steps(Piece::Imports(entry_views(entries@)));
    let mut i: usize = 0;
    assert(events.take(0) =~= Seq::empty());
    while i < entries.len()
        invariant
            0 <= i <= entries@.len(),
            session@.wf(),
            start == old(session)@,
            events == steps(Piece::Imports(entry_views(entries@))),
            imports_of(reader) == Some(entry_views(entries@)),
            runs(start, events.take(i as int)),
            replay(start, events.take(i as int)) == session@,
        decreases entries@.len() - i,
    {
        proof {
            assert(events.take(i + 1) =~= events.take(i as int).push(events[i as int]));
            lemma_replay_push(start, events.take(i as int), events[i as int]);
            if runs(start, events) {
                lemma_runs_take(start, events, i as int);
            }
            assert(events[i as int] == Event::Import(entries@[i as int]@));
        }
        let entry: &ImportEntry = &entries[i];
        match entry.function {
            Some(signature) => {
                session.add_import(entry.module.clone(), copy_name(&entry.field), signature)?;
            },
            None => {},
        }
        i = i + 1;
    }
    assert(events.take(i as int) =~= events);
    Ok(())
}

/// Takes every function of a function section into the module, in order.
fn read_functions<'a>(session: &mut Session, reader: FunctionSectionReader<'a>) -> (r: Result<(), Error>)
    requires
        old(session)@.wf(),
    ensures
        absorbed(old(session)@, final(session)@, piece_of(Section::Functions(reader), None), r),
{
    let entries: Vec<u32> = rejected(functions_all(reader))?;
    let ghost start = session@;
    let ghost events = steps(Piece::Functions(entries@));
    let mut i: usize = 0;
    assert(events.take(0) =~= Seq::empty());
    while i < entries.len()
        invariant
            0 <= i <= entries@.len(),
            session@.wf(),
            start == old(session)@,
            events == steps(Piece::Functions(entries@)),
            functions_of(reader) == Some(entries@),
            runs(start, events.take(i as int)),
            replay(start, events.take(i as int)) == session@,
        decreases entries@.len() - i,
    {
        proof {
            assert(events.take(i + 1) =~= events.take(i as int).push(events[i as int]));
            lemma_replay_push(start, events.take(i as int), events[i as int]);
            if runs(start, events) {
                lemma_runs_take(start, events, i as int);
            }
        }
        session.add_function(entries[i])?;
        i = i + 1;
    }
    assert(events.take(i as int) =~= events);
    Ok(())
}

/// Records every export of an export section, in order.
fn read_exports<'a>(session: &mut Session, reader: ExportSectionReader<'a>) -> (r: Result<(), Error>)
    requires
        old(session)@.wf(),
    ensures
        absorbed(old(session)@, final(session)@, piece_of(Section::Exports(reader), None), r),
{
    let entries: Vec<(String, u32)> = rejected(exports_all(reader))?;
    let ghost start = session@;
    let ghost events = steps(Piece::Exports(export_views(entries@)));
    let mut i: usize = 0;
    assert(events.take(0) =~= Seq::empty());
    while i < entries.len()
        invariant
            0 <= i <= entries@.len(),
            session@.wf(),
            start == old(session)@,
            events == steps(Piece::Exports(export_views(entries@))),
            exports_of(reader) == Some(export_views(entries@)),
            runs(start, events.take(i as int)),
            replay(start, events.take(i as int)) == session@,
        decreases entries@.len() - i,
    {
        proof {
            assert(events.take(i + 1) =~= events.take(i as int).push(events[i as int]));
            lemma_replay_push(start, events.take(i as int), events[i as int]);
        }
        let entry: &(String, u32) = &entries[i];
        session.add_export(entry.0.clone(), entry.1);
        i = i + 1;
    }
    assert(events.take(i as int) =~= events);
    Ok(())
}

/// Records every memory of a memory section, in order.
fn read_memories<'a>(session: &mut Session, reader: MemorySectionReader<'a>) -> (r: Result<(), Error>)
    requires
        old(session)@.wf(),
    ensures
        absorbed(old(session)@, final(session)@, piece_of(Section::Memories(reader), None), r),
{
    let entries: Vec<MemoryType> = rejected(memories_all(reader))?;
    let ghost start = session@;
    let ghost events = steps(Piece::Memories(entries@));
    let mut i: usize = 0;
    assert(events.take(0) =~= Seq::empty());
    while i < entries.len()
        invariant
            0 <= i <= entries@.len(),
            session@.wf(),
            start == old(session)@,
            events == steps(Piece::Memories(entries@)),
            memories_of(reader) == Some(entries@),
            runs(start, events.take(i as int)),
            replay(start, events.take(i as int)) == session@,
        decreases entries@.len() - i,
    {
        proof {
            assert(events.take(i + 1) =~= events.take(i as int).push(events[i as int]));
            lemma_replay_push(start, events.take(i as int), events[i as int]);
        }
        session.add_memory(entries[i]);
        i = i + 1;
    }
    assert(events.take(i as int) =~= events);
    Ok(())
}

/// Lays out the frame of a function: its parameters first, then every group
/// of declared locals. A type without a size is refused, and so is a frame of
/// more bytes than 32 bits count.
fn read_frame(params: &Vec<ValueType>, groups: &Vec<(u32, ValueType)>) -> (r: Result<Frame, Error>)
    ensures
        r is Ok <==> all_sized(params@) && groups_sized(groups@) && frame_bytes(
            params@ + expand(groups@),
        ) <= u32::MAX,
        r is Ok ==> r->Ok_0.wf() && r->Ok_0.types() == params@ + expand(groups@),
        r is Err ==> r->Err_0 is UnsupportedType || r->Err_0 is Unsupported,
{
    proof {
        lemma_expand_take(params@, groups@, 0);
        assert(groups@.take(0) =~= Seq::empty());
        assert(params@ + expand(groups@.take(0)) =~= params@);
    }
    let mut frame: Frame = Frame::with_params(params)?;
    let mut k: usize = 0;
    while k < groups.len()
        invariant
            0 <= k <= groups@.len(),
            frame.wf(),
            all_sized(params@),
            frame.types() == params@ + expand(groups@.take(k as int)),
            forall|j: int| 0 <= j < k ==> (#[trigger] groups@[j]).1.size_spec() is Some,
        decreases groups@.len() - k,
    {
        let group: (u32, ValueType) = groups[k];
        proof {
            frame.lemma_layout();
            lemma_expand_take(params@, groups@, k + 1);
            assert(groups@.take(k + 1).drop_last() =~= groups@.take(k as int));
            lemma_frame_bytes_repeat(frame.types(), group.0 as nat, group.1);
            assert(params@ + expand(groups@.take(k + 1)) =~= frame.types() + Seq::new(
                group.0 as nat,
                |i: int| group.1,
            ));
        }
        match frame.extend(group.0, group.1) {
            Ok(()) => {},
            Err(e) => {
                proof {
                    match group.1.size_spec() {
                        Some(n) => {
                            assert(group.0 * n == n * group.0) by (nonlinear_arith);
                        },
                        None => {},
                    }
                }
                return Err(e);
            },
        }
        k = k + 1;
    }
    proof {
        assert(groups@.take(k as int) =~= groups@);
        frame.lemma_layout();
    }
    Ok(frame)
}

/// What was read of a function body.
pub struct BodyRead {
    /// The groups of its declared locals.
    pub groups: Vec<(u32, ValueType)>,
    /// Its operators.
    pub ops: Vec<Op>,
    /// The depth of the operand stack after each operator.
    pub depths: Vec<u32>,
}

/// Reads a function body and has its validator check it: every operator in
/// order, then the end of the body.
fn read_body<'a>(function: FuncValidator<ValidatorResources>, body: &FunctionBody<'a>) -> (r: Result<BodyRead, Error>)
    ensures
        match body_of(function, *body) {
            Some((groups, ops, depths)) => r is Ok && r->Ok_0.groups@ == groups && r->Ok_0.ops@
                == ops && r->Ok_0.depths@ == depths,
            None => r is Err && r->Err_0 is ParserError,
        },
{
    let (stepper, groups, operators, end) = rejected(body_begin(function, body))?;
    let mut stepper = stepper;
    let ghost first = stepper;
    let mut ops: Vec<Op> = Vec::new();
    let mut depths: Vec<u32> = Vec::new();
    let mut i: usize = 0;
    assert(after_all(depths@, check(stepper, operators@, 0)) == check(first, operators@, 0)) by {
        match check(stepper, operators@, 0) {
            Some(rest) => {
                assert(depths@ + rest =~= rest);
            },
            None => {},
        }
    }
    while i < operators.len()
        invariant
            0 <= i <= operators@.len(),
            ops@ == shapes(operators@).take(i as int),
            depths@.len() == i,
            check(first, operators@, 0) == after_all(depths@, check(stepper, operators@, i as int)),
            i == operators@.len() ==> check(stepper, operators@, i as int) == closing(
                closes(stepper),
            ),
            body_of(function, *body) == (match check(first, operators@, 0) {
                Some(all) => Some((groups@, shapes(operators@), all)),
                None => None,
            }),
        decreases operators@.len() - i,
    {
        let ghost seen = depths@;
        let depth: u32 = rejected(function_op(&mut stepper, &operators, i))?;
        depths.push(depth);
        ops.push(operator_shape(&operators[i].0));
        proof {
            assert(ops@ =~= shapes(operators@).take(i + 1));
            match check(stepper, operators@, i + 1) {
                Some(rest) => {
                    assert(seen + (seq![depth] + rest) =~= depths@ + rest);
                },
                None => {},
            }
        }
        i = i + 1;
    }
    rejected(function_finish(&mut stepper, end))?;
    proof {
        assert(ops@ =~= shapes(operators@));
        assert(depths@ + Seq::<u32>::empty() =~= depths@);
    }
    Ok(BodyRead { groups, ops, depths })
}

/// Depths already reported before those still to come.
pub open spec fn after_all(seen: Seq<u32>, rest: Option<Seq<u32>>) -> Option<Seq<u32>> {
    match rest {
        Some(depths) => Some(seen + depths),
        None => None,
    }
}

/// Compiles one function body: it is read and checked by the validator in
/// full; then the frame is laid out and opened, every operator is lowered,
/// and the frame is closed. The greatest depth that the validator reported
/// for the operand stack is recorded with the function.
fn compile_body<'a>(session: &mut Session, validator: FuncValidator<ValidatorResources>, body: &FunctionBody<'a>) -> (r: Result<(), Error>)
    requires
        old(session)@.wf(),
    ensures
        absorbed(
            old(session)@,
            final(session)@,
            piece_of(Section::Code(*body), Some(validator)),
            r,
        ),
{
    let read: BodyRead = read_body(validator, body)?;
    let ghost first = session@;
    let ghost event = Event::Body(read.groups@, read.ops@, read.depths@);
    proof {
        assert(steps(Piece::Body(read.groups@, read.ops@, read.depths@)) =~= Seq::<
            Event,
        >::empty().push(event));
        lemma_replay_push(first, Seq::<Event>::empty(), event);
    }
    if read.depths.len() != read.ops.len() {
        return Err(Error::Inconsistent);
    }
    let start: BodyStart = session.begin_body()?;
    let ghost begun = session@;
    let frame: Frame = read_frame(&start.params, &read.groups)?;
    proof {
        assert(frame.types().take(start.params@.len() as int) =~= start.params@);
    }
    session.prologue(&start.params, &frame)?;
    let ghost opened = session@;
    let ghost tables = first.tables;
    let ghost locals = frame.locals();
    let ghost entry = prologue_spec(start.params@, locals, frame.size_spec());
    proof {
        frame.lemma_layout();
        assert(begun.with_code(entry + lowered(tables, locals, read.ops@.take(0))).program
            =~= opened.program);
    }
    let mut i: usize = 0;
    while i < read.ops.len()
        invariant
            0 <= i <= read.ops@.len(),
            session@.wf(),
            frame.wf(),
            first == old(session)@,
            first.wf(),
            first.next_body() is Some,
            tables == first.tables,
            piece_of(Section::Code(*body), Some(validator)) == Some(
                Piece::Body(read.groups@, read.ops@, read.depths@),
            ),
            runs(first, steps(Piece::Body(read.groups@, read.ops@, read.depths@)))
                == first.takes_body(read.groups@, read.ops@, read.depths@),
            frame.types() == first.next_body()->Some_0.0.params@ + expand(read.groups@),
            locals == frame.locals(),
            locals == frame_locals(frame.types()),
            session@ == begun.with_code(entry + lowered(tables, locals, read.ops@.take(i as int))),
            session@.tables == tables,
            all_lowered(tables, locals, read.ops@.take(i as int)),
        decreases read.ops@.len() - i,
    {
        let op: Op = read.ops[i];
        let ghost done = read.ops@.take(i as int);
        let ghost longer = read.ops@.take(i + 1);
        proof {
            assert(longer.drop_last() =~= done);
            assert(longer.last() == op);
        }
        match session.operator(frame.slots(), op) {
            Ok(()) => {},
            Err(e) => {
                proof {
                    assert(read.ops@[i as int] == op);
                    assert(!all_lowered(tables, locals, read.ops@));
                }
                return Err(e);
            },
        }
        proof {
            let code = lower_spec(tables, locals, op)->Some_0;
            assert(lowered(tables, locals, longer) == lowered(tables, locals, done) + code);
            assert(session@.program =~= begun.with_code(
                entry + lowered(tables, locals, longer),
            ).program);
            assert forall|j: int| 0 <= j < longer.len() implies lower_spec(
                tables,
                locals,
                #[trigger] longer[j],
            ) is Some by {
                if j < done.len() {
                    assert(longer[j] == done[j]);
                }
            }
        }
        i = i + 1;
    }
    let peak: u32 = peak_height(&read.depths);
    proof {
        assert(read.ops@.take(i as int) =~= read.ops@);
    }
    let r = session.end_body(&start, frame.size(), peak);
    proof {
        if r is Ok {
            assert(first.takes_body(read.groups@, read.ops@, read.depths@));
            assert(session@ == first.with_body(read.groups@, read.ops@, read.depths@));
        }
    }
    r
}

/// Has a session take what one piece of a module declares.
fn absorb<'a>(session: &mut Session, section: Section<'a>, function: Option<FuncValidator<ValidatorResources>>) -> (r: Result<(), Error>)
    requires
        old(session)@.wf(),
        !(section is End),
        (section is Code) == (function is Some),
    ensures
        absorbed(old(session)@, final(session)@, piece_of(section, function), r),
{
    match section {
        Section::Types(reader) => read_types(session, reader),
        Section::Imports(reader) => read_imports(session, reader),
        Section::Functions(reader) => read_functions(session, reader),
        Section::Exports(reader) => read_exports(session, reader),
        Section::Memories(reader) => read_memories(session, reader),
        Section::Code(body) => match function {
            Some(validator) => compile_body(session, validator, &body),
            None => Err(Error::Inconsistent),
        },
        Section::Nested => {
            proof {
                assert(steps(Piece::Nested) =~= Seq::<Event>::empty().push(Event::Nested));
                lemma_replay_push(session@, Seq::<Event>::empty(), Event::Nested);
            }
            Err(Error::Unsupported)
        },
        _ => {
            proof {
                assert(steps(Piece::Other) =~= Seq::<Event>::empty());
            }
            Ok(())
        },
    }
}

/// What the reader makes of a module: its pieces in order, and whether one
/// was refused.
pub open spec fn reading(bytes: Seq<u8>) -> (Seq<Piece>, bool) {
    declared(bytes, enabled())
}

/// The steps that a module asks of a session, up to the end of the module or
/// to the piece that the reader refuses.
pub open spec fn asked(bytes: Seq<u8>) -> Seq<Event> {
    all_steps(reading(bytes).0)
}

/// What compiling a module gives, by what the reader makes of it. Where a
/// session does not take one of the steps that the module asks for before the
/// reader refuses anything, the module is refused for what it uses. Where it
/// takes them all and the reader refuses a piece, the module is refused with
/// the reader's error. Otherwise the module is compiled exactly where the
/// session after all the steps finishes: the result is the end of that
/// session, with the start of every function that has a body.
pub open spec fn compiled(bytes: Seq<u8>, r: Result<AssembledModule, Error>) -> bool {
    if !runs(initial(), asked(bytes)) {
        r is Err && (r->Err_0 is Unsupported || r->Err_0 is UnsupportedType
            || r->Err_0 is Inconsistent)
    } else if reading(bytes).1 {
        r is Err && r->Err_0 is ParserError
    } else {
        let s = replay(initial(), asked(bytes));
        &&& r is Ok <==> finishes(s)
        &&& match r {
            Ok(m) => finished(s, m@) && complete(s, m@),
            Err(e) => e is AssemblerError || e is Inconsistent,
        }
    }
}

/// Compiling the same bytes gives the same: both results are modules or
/// neither is, and two modules agree in their code, their entry points and
/// all that they keep of the module.
pub proof fn lemma_compiled_once(bytes: Seq<u8>, one: Result<AssembledModule, Error>, two: Result<AssembledModule, Error>)
    requires
        compiled(bytes, one),
        compiled(bytes, two),
    ensures
        one is Ok == two is Ok,
        one is Ok ==> {
            let (a, b) = (one->Ok_0@, two->Ok_0@);
            &&& a.binary == b.binary
            &&& a.module.bodies == b.module.bodies
            &&& a.module.heights == b.module.heights
            &&& a.module.exports == b.module.exports
            &&& a.module.memories == b.module.memories
            &&& a.module.functions == b.module.functions
        },
{
    if one is Ok {
        let s = replay(initial(), asked(bytes));
        let (a, b) = (one->Ok_0@, two->Ok_0@);
        assert forall|f: u32| a.module.bodies.contains_key(f) == b.module.bodies.contains_key(f)
            && (a.module.bodies.contains_key(f) ==> a.module.bodies[f] == b.module.bodies[f]) by {
            let got = recorded(s, f, s.function_bodies.len() as int);
            assert((if a.module.bodies.contains_key(f) {
                Some(a.module.bodies[f])
            } else {
                None
            }) == got);
            assert((if b.module.bodies.contains_key(f) {
                Some(b.module.bodies[f])
            } else {
                None
            }) == got);
        }
        assert(a.module.bodies =~= b.module.bodies);
    }
}

/// The memories of a compiled module are those that the module declares,
/// complete and in the order declared.
pub proof fn lemma_compiled_memories(bytes: Seq<u8>, r: Result<AssembledModule, Error>)
    requires
        compiled(bytes, r),
        r is Ok,
    ensures
        r->Ok_0@.module.memories == memories_in(asked(bytes)),
{
    lemma_replay_memories(initial(), asked(bytes));
    assert(initial().module.memories + memories_in(asked(bytes))
        =~= memories_in(asked(bytes)));
}

/// Compiles a module to x86-64 machine code.
///
/// The module is cut into its pieces by the parser; every piece is checked by
/// the validator before anything is emitted for it. A module that the parser
/// or the validator refuses is refused with their error, one that the encoder
/// refuses with the encoder's.
pub fn compile_module(bytes: &[u8]) -> (r: Result<AssembledModule, Error>)
    ensures
        compiled(bytes@, r),
        r is Ok ==> r->Ok_0@.wf() && r->Ok_0@.unlinked(),
{
    let features: Features = enabled_features();
    let mut source = source_new(&features);
    let mut session: Session = Session::new();
    let mut data: &[u8] = bytes;
    let mut last: bool = false;
    let ghost whole = reading(bytes@);
    let ghost mut done: Seq<Piece> = Seq::empty();
    proof {
        assert(done + ahead(source, data@, last).0 =~= whole.0);
    }
    loop
        invariant_except_break
            whole.0 == done + ahead(source, data@, last).0,
            whole.1 == ahead(source, data@, last).1,
        invariant
            session@.wf(),
            whole == reading(bytes@),
            runs(initial(), all_steps(done)),
            session@ == replay(initial(), all_steps(done)),
        ensures
            whole.0 == done,
            !whole.1,
        decreases
            data@.len(),
            (if last {
                0int
            } else {
                1int
            }),
    {
        let (next, step) = match source_step(source, data, last) {
            Ok(stepped) => stepped,
            Err(e) => {
                proof {
                    assert(whole.0 =~= done);
                }
                return Err(Error::ParserError(e));
            },
        };
        source = next;
        match step {
            None => {
                last = true;
            },
            Some((consumed, section, function)) => {
                if let Section::End = section {
                    proof {
                        assert(whole.0 =~= done);
                    }
                    break ;
                }
                let ghost piece = piece_of(section, function);
                let ghost before = session@;
                let ghost rest = ahead(source, data@.skip(consumed as int), consumed == data@.len());
                let r = absorb(&mut session, section, function);
                proof {
                    match piece {
                        None => {
                            assert(whole.0 =~= done);
                        },
                        Some(p) => {
                            assert(whole.0 =~= done.push(p) + rest.0);
                            lemma_all_steps_concat(done.push(p), rest.0);
                            assert(done.push(p).drop_last() =~= done);
                            lemma_replay_concat(initial(), all_steps(done), steps(p));
                            lemma_replay_concat(
                                initial(),
                                all_steps(done.push(p)),
                                all_steps(rest.0),
                            );
                            done = done.push(p);
                        },
                    }
                }
                match r {
                    Ok(()) => {},
                    Err(e) => {
                        return Err(e);
                    },
                }
                data = vstd::slice::slice_subrange(data, consumed, data.len());
                last = data.len() == 0;
            },
        }
    }
    proof {
        session.lemma_bounded();
        lemma_replay_settled(all_steps(done));
    }
    session.finish()
}

impl Compiler for X86_64Compiler {
    type Error = Error;

    type Module = AssembledModule;

    fn compile(&self, module: &[u8]) -> (r: Result<AssembledModule, Error>)
        ensures
            compiled(module@, r),
            r is Ok ==> r->Ok_0@.wf() && r->Ok_0@.unlinked(),
    {
        compile_module(module)
    }
}

} // verus!
