//! The reader: what the library calls in `wasmparser_nostd` to parse and
//! validate a module. Nothing here is proved; each item says what is taken on
//! trust.

use crate::lower::Op;
use crate::types::{MemoryType, Signature, ValueType};
use vstd::prelude::*;
use wasmparser_nostd::{
    BinaryReaderError, Chunk, ExportSectionReader, FuncType, FuncValidator, FunctionBody,
    FunctionSectionReader, ImportSectionEntryType, ImportSectionReader, MemorySectionReader,
    Operator, Parser, Payload, Type, TypeDef, TypeSectionReader, ValidPayload, Validator,
    ValidatorResources, WasmFeatures,
};

verus! {

/// `wasmparser_nostd::BinaryReaderError`: why a module was refused.
#[verifier::external_type_specification]
#[verifier::external_body]
pub struct ExBinaryReaderError(BinaryReaderError);

/// `wasmparser_nostd::Parser`: cuts a module into its sections.
#[verifier::external_type_specification]
#[verifier::external_body]
pub struct ExParser(Parser);

/// `wasmparser_nostd::Payload`: one piece of a module.
#[verifier::external_type_specification]
#[verifier::external_body]
pub struct ExPayload<'a>(Payload<'a>);

/// `wasmparser_nostd::Validator`: checks a module piece by piece.
#[verifier::external_type_specification]
#[verifier::external_body]
pub struct ExValidator(Validator);

/// `wasmparser_nostd::ValidatorResources`: what a function's validator knows of
/// its module.
#[verifier::external_type_specification]
#[verifier::external_body]
pub struct ExValidatorResources(ValidatorResources);

/// `wasmparser_nostd::FuncValidator`: checks one function body.
#[verifier::external_type_specification]
#[verifier::external_body]
#[verifier::reject_recursive_types(T)]
pub struct ExFuncValidator<T>(FuncValidator<T>);

/// `wasmparser_nostd::TypeSectionReader`.
#[verifier::external_type_specification]
#[verifier::external_body]
pub struct ExTypeSectionReader<'a>(TypeSectionReader<'a>);

/// `wasmparser_nostd::ImportSectionReader`.
#[verifier::external_type_specification]
#[verifier::external_body]
pub struct ExImportSectionReader<'a>(ImportSectionReader<'a>);

/// `wasmparser_nostd::FunctionSectionReader`.
#[verifier::external_type_specification]
#[verifier::external_body]
pub struct ExFunctionSectionReader<'a>(FunctionSectionReader<'a>);

/// `wasmparser_nostd::ExportSectionReader`.
#[verifier::external_type_specification]
#[verifier::external_body]
pub struct ExExportSectionReader<'a>(ExportSectionReader<'a>);

/// `wasmparser_nostd::MemorySectionReader`.
#[verifier::external_type_specification]
#[verifier::external_body]
pub struct ExMemorySectionReader<'a>(MemorySectionReader<'a>);

/// `wasmparser_nostd::FunctionBody`: the bytes of one function.
#[verifier::external_type_specification]
#[verifier::external_body]
pub struct ExFunctionBody<'a>(FunctionBody<'a>);

/// `wasmparser_nostd::Operator`: one instruction of a function body.
#[verifier::external_type_specification]
#[verifier::external_body]
pub struct ExOperator<'a>(Operator<'a>);

/// `wasmparser_nostd::Type`: a type code.
#[verifier::external_type_specification]
#[verifier::external_body]
pub struct ExType(Type);

/// `wasmparser_nostd::FuncType`: a function signature.
#[verifier::external_type_specification]
#[verifier::external_body]
pub struct ExFuncType(FuncType);

/// The features of WebAssembly that a validator may be asked to accept.
#[derive(Clone, Copy, Debug, PartialEq, Eq, Structural)]
pub struct Features {
    pub mutable_global: bool,
    pub saturating_float_to_int: bool,
    pub sign_extension: bool,
    pub reference_types: bool,
    pub multi_value: bool,
    pub bulk_memory: bool,
    pub module_linking: bool,
    pub simd: bool,
    pub relaxed_simd: bool,
    pub threads: bool,
    pub tail_call: bool,
    pub deterministic_only: bool,
    pub multi_memory: bool,
    pub exceptions: bool,
    pub memory64: bool,
    pub extended_const: bool,
}

/// One piece of a module, as far as the compiler tells the pieces apart.
pub enum Section<'a> {
    Types(TypeSectionReader<'a>),
    Imports(ImportSectionReader<'a>),
    Functions(FunctionSectionReader<'a>),
    Exports(ExportSectionReader<'a>),
    Memories(MemorySectionReader<'a>),
    Code(FunctionBody<'a>),
    /// The start or an entry of a section of nested modules.
    Nested,
    /// The end of the module.
    End,
    /// Any other piece.
    Other,
}

/// One entry of an import section.
pub struct ImportEntry {
    pub module: String,
    pub field: Option<String>,
    /// The index of its signature, where a function is imported.
    pub function: Option<u32>,
}

/// An entry of an import section as a mathematical value.
pub struct ImportEntryView {
    pub module: Seq<char>,
    pub field: Option<Seq<char>>,
    pub function: Option<u32>,
}

impl View for ImportEntry {
    type V = ImportEntryView;

    open spec fn view(&self) -> ImportEntryView {
        ImportEntryView {
            module: self.module@,
            field: match self.field {
                Some(f) => Some(f@),
                None => None,
            },
            function: self.function,
        }
    }
}

/// What one piece of a module holds, read in full.
pub enum Piece {
    /// The entries of a type section: a signature, or nothing for a type that
    /// is no function type.
    Types(Seq<Option<Signature>>),
    /// The entries of an import section.
    Imports(Seq<ImportEntryView>),
    /// The entries of a function section: signature indices.
    Functions(Seq<u32>),
    /// The entries of an export section: name and index.
    Exports(Seq<(Seq<char>, u32)>),
    /// The entries of a memory section.
    Memories(Seq<MemoryType>),
    /// A function body: the groups of its declared locals, its operators, and
    /// the depth of the operand stack that the validator reports after each.
    Body(Seq<(u32, ValueType)>, Seq<Op>, Seq<u32>),
    /// The start or an entry of a section of nested modules.
    Nested,
    /// Any other piece.
    Other,
}

/// The parser and the validator of one module. Every piece that the parser
/// cuts is given to the validator, and nothing else is.
pub struct Source {
    parser: Parser,
    validator: Validator,
}

/// What reading a module gives under the features given: the pieces in order,
/// up to the end of the module or to the first piece that the parser or the
/// validator refuses, and whether one was refused.
pub uninterp spec fn declared(bytes: Seq<u8>, features: Features) -> (Seq<Piece>, bool);

/// What reading on gives, from a source that is handed `data` next: the pieces
/// still to come and whether one of them is refused. After each piece the
/// source is handed what that piece left of the data, as the last of it when
/// nothing is left; a source that asks for more is handed the same data as the
/// last.
pub uninterp spec fn ahead(source: Source, data: Seq<u8>, last: bool) -> (Seq<Piece>, bool);

/// The entries of a type section; `None` where one does not parse.
pub uninterp spec fn types_of(reader: TypeSectionReader<'_>) -> Option<Seq<Option<Signature>>>;

/// The entries of an import section; `None` where one does not parse.
pub uninterp spec fn imports_of(reader: ImportSectionReader<'_>) -> Option<Seq<ImportEntryView>>;

/// The entries of a function section; `None` where one does not parse.
pub uninterp spec fn functions_of(reader: FunctionSectionReader<'_>) -> Option<Seq<u32>>;

/// The entries of an export section; `None` where one does not parse.
pub uninterp spec fn exports_of(reader: ExportSectionReader<'_>) -> Option<Seq<(Seq<char>, u32)>>;

/// The entries of a memory section; `None` where one does not parse.
pub uninterp spec fn memories_of(reader: MemorySectionReader<'_>) -> Option<Seq<MemoryType>>;

/// What reading and checking a function body with its validator gives: the
/// groups of declared locals, the operators, and the depth of the operand
/// stack after each; `None` where the body does not parse or the validator
/// refuses it.
pub uninterp spec fn body_of(function: FuncValidator<ValidatorResources>, body: FunctionBody<'_>) -> Option<(Seq<(u32, ValueType)>, Seq<Op>, Seq<u32>)>;

/// The depths that a validator reports for the operators from number `from`
/// on, each checked after the one before; `None` where it refuses one of them
/// or, after the last, the end of the body.
pub uninterp spec fn check(function: FuncValidator<ValidatorResources>, operators: Seq<(Operator<'_>, usize)>, from: int) -> Option<Seq<u32>>;

/// Whether a validator accepts that the body ends where it stands.
pub uninterp spec fn closes(function: FuncValidator<ValidatorResources>) -> bool;

/// The operator as the compiler tells operators apart.
pub uninterp spec fn shape(operator: Operator<'_>) -> Op;

/// A piece before the pieces that follow it; a piece that is refused ends the
/// reading.
pub open spec fn chain(piece: Option<Piece>, rest: (Seq<Piece>, bool)) -> (Seq<Piece>, bool) {
    match piece {
        Some(p) => (seq![p] + rest.0, rest.1),
        None => (Seq::empty(), true),
    }
}

/// What a piece holds, read in full; `None` where it is refused.
pub open spec fn piece_of(section: Section<'_>, function: Option<FuncValidator<ValidatorResources>>) -> Option<Piece> {
    match section {
        Section::Types(reader) => match types_of(reader) {
            Some(entries) => Some(Piece::Types(entries)),
            None => None,
        },
        Section::Imports(reader) => match imports_of(reader) {
            Some(entries) => Some(Piece::Imports(entries)),
            None => None,
        },
        Section::Functions(reader) => match functions_of(reader) {
            Some(entries) => Some(Piece::Functions(entries)),
            None => None,
        },
        Section::Exports(reader) => match exports_of(reader) {
            Some(entries) => Some(Piece::Exports(entries)),
            None => None,
        },
        Section::Memories(reader) => match memories_of(reader) {
            Some(entries) => Some(Piece::Memories(entries)),
            None => None,
        },
        Section::Code(body) => match function {
            Some(f) => match body_of(f, body) {
                Some((groups, ops, depths)) => Some(Piece::Body(groups, ops, depths)),
                None => None,
            },
            None => None,
        },
        Section::Nested => Some(Piece::Nested),
        Section::End => Some(Piece::Other),
        Section::Other => Some(Piece::Other),
    }
}

/// No depth more where the body may end, a refusal where it may not.
pub open spec fn closing(accepted: bool) -> Option<Seq<u32>> {
    if accepted {
        Some(Seq::empty())
    } else {
        None
    }
}

/// A depth before those that follow it.
pub open spec fn after_depth(depth: u32, rest: Option<Seq<u32>>) -> Option<Seq<u32>> {
    match rest {
        Some(depths) => Some(seq![depth] + depths),
        None => None,
    }
}

/// The operators of a body as the compiler tells them apart.
pub open spec fn shapes(operators: Seq<(Operator<'_>, usize)>) -> Seq<Op> {
    Seq::new(operators.len(), |i: int| shape(operators[i].0))
}

/// The entries of an import section as mathematical values.
pub open spec fn entry_views(entries: Seq<ImportEntry>) -> Seq<ImportEntryView> {
    Seq::new(entries.len(), |i: int| entries[i]@)
}

/// Exports as mathematical values.
pub open spec fn export_views(entries: Seq<(String, u32)>) -> Seq<(Seq<char>, u32)> {
    Seq::new(entries.len(), |i: int| (entries[i].0@, entries[i].1))
}

/// `Parser::new` at offset zero with `Validator::new` and
/// `Validator::wasm_features`: a source at the start of a module, whose
/// validator accepts the features given. Reading on from it is reading the
/// module.
#[verifier::external_body]
pub(crate) fn source_new(f: &Features) -> (source: Source)
    ensures
        forall|bytes: Seq<u8>| #[trigger] ahead(source, bytes, false) == declared(bytes, *f),
{
    let mut validator = Validator::new();
    validator.wasm_features(WasmFeatures {
        mutable_global: f.mutable_global, saturating_float_to_int: f.saturating_float_to_int,
        sign_extension: f.sign_extension, reference_types: f.reference_types,
        multi_value: f.multi_value, bulk_memory: f.bulk_memory, module_linking: f.module_linking,
        simd: f.simd, relaxed_simd: f.relaxed_simd, threads: f.threads, tail_call: f.tail_call,
        deterministic_only: f.deterministic_only, multi_memory: f.multi_memory,
        exceptions: f.exceptions, memory64: f.memory64, extended_const: f.extended_const,
    });
    Source { parser: Parser::new(0), validator }
}

/// `Parser::parse` followed by `Validator::payload` on the piece that was
/// cut. A source that refuses is gone. The parser asks for more only of data
/// that is not the last; it takes no more bytes than it is handed, and at
/// least one but at the end of the module; and the validator hands out the
/// validator of a function for the entries of the code section and for
/// nothing else.
#[verifier::external_body]
pub(crate) fn source_step<'a>(source: Source, data: &'a [u8], last: bool) -> (r: Result<(Source, Option<(usize, Section<'a>, Option<FuncValidator<ValidatorResources>>)>), BinaryReaderError>)
    ensures
        match r {
            Err(_) => ahead(source, data@, last) == (Seq::<Piece>::empty(), true),
            Ok((next, None)) => !last && ahead(next, data@, true) == ahead(source, data@, false),
            Ok((next, Some((consumed, section, function)))) => {
                &&& consumed <= data@.len()
                &&& section is End || consumed > 0
                &&& (section is Code) == (function is Some)
                &&& ahead(source, data@, last) == (if section is End {
                    (Seq::<Piece>::empty(), false)
                } else {
                    chain(
                        piece_of(section, function),
                        ahead(next, data@.skip(consumed as int), consumed == data@.len()),
                    )
                })
            },
        },
{
    let Source { mut parser, mut validator } = source;
    let (consumed, payload) = match parser.parse(data, last)? {
        Chunk::NeedMoreData(_) => return Ok((Source { parser, validator }, None)),
        Chunk::Parsed { consumed, payload } => (consumed, payload),
    };
    let function = match validator.payload(&payload)? {
        ValidPayload::Func(function, _) => Some(function),
        _ => None,
    };
    Ok((Source { parser, validator }, Some((consumed, payload_section(payload), function))))
}

/// Tells the variants of `Payload` apart and hands on the reader of each
/// section that the compiler reads.
#[verifier::external_body]
fn payload_section<'a>(payload: Payload<'a>) -> Section<'a> {
    match payload {
        Payload::TypeSection(r) => Section::Types(r),
        Payload::ImportSection(r) => Section::Imports(r),
        Payload::FunctionSection(r) => Section::Functions(r),
        Payload::ExportSection(r) => Section::Exports(r),
        Payload::MemorySection(r) => Section::Memories(r),
        Payload::CodeSectionEntry(body) => Section::Code(body),
        Payload::ModuleSectionStart { .. } | Payload::ModuleSectionEntry { .. } => Section::Nested,
        Payload::End => Section::End,
        _ => Section::Other,
    }
}

/// Tells the variants of `Type` apart.
#[verifier::external_body]
fn value_type(ty: &Type) -> ValueType {
    match *ty {
        Type::I32 => ValueType::I32,
        Type::I64 => ValueType::I64,
        Type::F32 => ValueType::F32,
        Type::F64 => ValueType::F64,
        Type::V128 => ValueType::V128,
        Type::FuncRef => ValueType::FuncRef,
        Type::ExternRef => ValueType::ExternRef,
        Type::ExnRef => ValueType::ExnRef,
        Type::Func => ValueType::Func,
        Type::EmptyBlockType => ValueType::EmptyBlockType,
    }
}

/// The parameter and result types of a signature (`FuncType::params`,
/// `FuncType::returns`), one for one.
#[verifier::external_body]
fn signature_of(signature: &FuncType) -> Signature {
    Signature {
        params: signature.params.iter().map(value_type).collect(),
        results: signature.returns.iter().map(value_type).collect(),
    }
}

/// Every entry of a type section (the iterator of `TypeSectionReader`): its
/// signature where it defines a function type, `None` where it defines
/// another kind of type.
#[verifier::external_body]
pub(crate) fn types_all<'a>(reader: TypeSectionReader<'a>) -> (r: Result<Vec<Option<Signature>>, BinaryReaderError>)
    ensures
        match r {
            Ok(entries) => types_of(reader) == Some(entries@),
            Err(_) => types_of(reader) is None,
        },
{
    let entry = |def| match def {
        TypeDef::Func(signature) => Some(signature_of(&signature)),
        _ => None,
    };
    reader.into_iter().map(|def| def.map(entry)).collect()
}

/// Every entry of an import section (the iterator of `ImportSectionReader`),
/// with its names copied.
#[verifier::external_body]
pub(crate) fn imports_all<'a>(reader: ImportSectionReader<'a>) -> (r: Result<Vec<ImportEntry>, BinaryReaderError>)
    ensures
        match r {
            Ok(entries) => imports_of(reader) == Some(entry_views(entries@)),
            Err(_) => imports_of(reader) is None,
        },
{
    let entry = |import: wasmparser_nostd::Import<'a>| ImportEntry {
        module: import.module.to_owned(),
        field: import.field.map(str::to_owned),
        function: match import.ty {
            ImportSectionEntryType::Function(signature) => Some(signature),
            _ => None,
        },
    };
    reader.into_iter().map(|import| import.map(entry)).collect()
}

/// Every entry of a function section (the iterator of
/// `FunctionSectionReader`): the indices of signatures.
#[verifier::external_body]
pub(crate) fn functions_all<'a>(reader: FunctionSectionReader<'a>) -> (r: Result<Vec<u32>, BinaryReaderError>)
    ensures
        match r {
            Ok(entries) => functions_of(reader) == Some(entries@),
            Err(_) => functions_of(reader) is None,
        },
{
    reader.into_iter().collect()
}

/// Every entry of an export section (the iterator of `ExportSectionReader`),
/// as its name and its index.
#[verifier::external_body]
pub(crate) fn exports_all<'a>(reader: ExportSectionReader<'a>) -> (r: Result<Vec<(String, u32)>, BinaryReaderError>)
    ensures
        match r {
            Ok(entries) => exports_of(reader) == Some(export_views(entries@)),
            Err(_) => exports_of(reader) is None,
        },
{
    reader.into_iter().map(|e| e.map(|e| (e.field.to_owned(), e.index))).collect()
}

/// Every entry of a memory section (the iterator of `MemorySectionReader`),
/// field by field.
#[verifier::external_body]
pub(crate) fn memories_all<'a>(reader: MemorySectionReader<'a>) -> (r: Result<Vec<MemoryType>, BinaryReaderError>)
    ensures
        match r {
            Ok(entries) => memories_of(reader) == Some(entries@),
            Err(_) => memories_of(reader) is None,
        },
{
    let entry = |m: wasmparser_nostd::MemoryType| MemoryType {
        memory64: m.memory64, shared: m.shared, initial: m.initial, maximum: m.maximum,
    };
    reader.into_iter().map(|m| m.map(entry)).collect()
}

/// The start of the check of a function body: `FuncValidator::read_locals`
/// tells the validator of the declared locals; the groups of locals and the
/// operators with their offsets are read in full (the iterators of
/// `LocalsReader` and `OperatorsReader`); and the end of the body is
/// `FunctionBody::range`'s. What the body gives is what the check of its
/// operators gives from here.
#[verifier::external_body]
pub(crate) fn body_begin<'a>(function: FuncValidator<ValidatorResources>, body: &FunctionBody<'a>) -> (r: Result<(FuncValidator<ValidatorResources>, Vec<(u32, ValueType)>, Vec<(Operator<'a>, usize)>, usize), BinaryReaderError>)
    ensures
        match r {
            Err(_) => body_of(function, *body) is None,
            Ok((next, groups, operators, end)) => {
                &&& body_of(function, *body) == (match check(next, operators@, 0) {
                    Some(depths) => Some((groups@, shapes(operators@), depths)),
                    None => None,
                })
                &&& operators@.len() == 0 ==> check(next, operators@, 0) == closing(closes(next))
            },
        },
{
    let mut function = function;
    function.read_locals(&mut body.get_binary_reader())?;
    let group = |(count, ty): (u32, Type)| (count, value_type(&ty));
    let groups = body.get_locals_reader()?.into_iter().map(|g| g.map(group)).collect::<Result<_, _>>()?;
    let operators = body.get_operators_reader()?.into_iter_with_offsets().collect::<Result<_, _>>()?;
    Ok((function, groups, operators, body.range().end))
}

/// `FuncValidator::op` on operator number `i`, then
/// `FuncValidator::operand_stack_height`: the depth of the operand stack after
/// the operator, where the validator accepts it.
#[verifier::external_body]
pub(crate) fn function_op<'a>(function: &mut FuncValidator<ValidatorResources>, operators: &Vec<(Operator<'a>, usize)>, i: usize) -> (r: Result<u32, BinaryReaderError>)
    requires
        i < operators@.len(),
    ensures
        match r {
            Ok(depth) => {
                &&& check(*old(function), operators@, i as int) == after_depth(
                    depth,
                    check(*final(function), operators@, i + 1),
                )
                &&& i + 1 == operators@.len() ==> check(*final(function), operators@, i + 1)
                    == closing(closes(*final(function)))
            },
            Err(_) => check(*old(function), operators@, i as int) is None,
        },
{
    function.op(operators[i].1, &operators[i].0)?;
    Ok(function.operand_stack_height())
}

/// `FuncValidator::finish`: whether the body ended as a body must.
#[verifier::external_body]
pub(crate) fn function_finish(function: &mut FuncValidator<ValidatorResources>, end: usize) -> (r: Result<(), BinaryReaderError>)
    ensures
        r is Ok == closes(*old(function)),
{
    function.finish(end)
}

/// Tells apart the variants of `Operator` that the compiler lowers.
#[verifier::external_body]
pub(crate) fn operator_shape<'a>(operator: &Operator<'a>) -> (op: Op)
    ensures
        op == shape(*operator),
{
    match *operator {
        Operator::Nop => Op::Nop, Operator::End => Op::End, Operator::Drop => Op::Drop,
        Operator::I32Const { value } => Op::I32Const(value),
        Operator::I64Const { value } => Op::I64Const(value),
        Operator::LocalGet { local_index } => Op::LocalGet(local_index),
        Operator::LocalSet { local_index } => Op::LocalSet(local_index),
        Operator::LocalTee { local_index } => Op::LocalTee(local_index),
        Operator::I32Add => Op::I32Add, Operator::I32Sub => Op::I32Sub,
        Operator::I64Add => Op::I64Add, Operator::I64Sub => Op::I64Sub,
        Operator::Call { function_index } => Op::Call(function_index),
        _ => Op::Other,
    }
}

} // verus!
