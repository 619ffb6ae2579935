//! A compiled module: the machine code and the tables by which a host finds
//! its functions and resolves its imports.

use crate::endian::le_bytes;
use crate::types::MemoryType;
use std::collections::BTreeMap;
use vstd::bytes::spec_u64_to_le_bytes;
use vstd::prelude::*;

verus! {

broadcast use {vstd::std_specs::btree::group_btree_axioms, vstd::laws_cmp::group_laws_cmp};

/// The value that an import's slot holds until the import is linked.
pub const UNLINKED: u64 = 0xBADC0FFEE0DDF00D;

/// Bytes of a slot that holds an address.
pub const SLOT_BYTES: usize = 8;

/// The byte that encodes `push rbp`, with which a function that keeps its
/// frame begins.
pub const PUSH_RBP: u8 = 0x55;

/// An imported function and the place in the code that holds its address.
#[derive(Clone, Debug)]
pub struct Import {
    /// The function's index in the module.
    pub index: u32,
    /// The name of the module it is imported from.
    pub module: String,
    /// Its name in that module, where it has one.
    pub field: Option<String>,
    /// Byte offset in the code of the eight bytes that hold its address.
    pub offset: usize,
}

/// An import as a mathematical value.
pub struct ImportView {
    pub index: u32,
    pub module: Seq<char>,
    pub field: Option<Seq<char>>,
    pub offset: usize,
}

impl View for Import {
    type V = ImportView;

    open spec fn view(&self) -> ImportView {
        ImportView {
            index: self.index,
            module: self.module@,
            field: match self.field {
                Some(f) => Some(f@),
                None => None,
            },
            offset: self.offset,
        }
    }
}

/// The tables of a module as mathematical values.
pub struct ModuleView {
    /// Function index to the index of the instruction that is its slot.
    pub functions: Map<u32, usize>,
    /// Function index to the byte offset of its slot: eight bytes that hold
    /// the offset in the code of the function's first instruction.
    pub slots: Map<u32, usize>,
    /// Function index to the byte offset of its first instruction.
    pub bodies: Map<u32, usize>,
    /// Function index to the greatest depth its operand stack reached.
    pub heights: Map<u32, u32>,
    /// Function index to whether its code still begins by saving `rbp`: the
    /// optimizer removes the frame of a function that does nothing.
    pub frames: Map<u32, bool>,
    /// Exported names with the index each stands for, in the order recorded.
    pub exports: Seq<(Seq<char>, u32)>,
    /// Imported functions, in the order of their indices.
    pub imports: Seq<ImportView>,
    /// The memories, in the order declared.
    pub memories: Seq<MemoryType>,
}

/// The index that `name` stands for: that of the entry recorded last under it.
pub open spec fn export_index(exports: Seq<(Seq<char>, u32)>, name: Seq<char>) -> Option<u32>
    decreases exports.len(),
{
    if exports.len() == 0 {
        None
    } else if exports.last().0 == name {
        Some(exports.last().1)
    } else {
        export_index(exports.drop_last(), name)
    }
}

/// Whether `import` is the one meant by a module name and a field name. An
/// import without a field name is never meant, nor does a missing name mean
/// any import.
pub open spec fn import_matches(import: ImportView, module: Seq<char>, name: Option<Seq<char>>) -> bool {
    import.module == module && match (name, import.field) {
        (Some(n), Some(f)) => n == f,
        _ => false,
    }
}

/// The position of the first import that a module name and a field name mean.
pub open spec fn find_import(imports: Seq<ImportView>, module: Seq<char>, name: Option<Seq<char>>) -> Option<int>
    decreases imports.len(),
{
    if imports.len() == 0 {
        None
    } else if import_matches(imports[0], module, name) {
        Some(0int)
    } else {
        match find_import(imports.skip(1), module, name) {
            Some(i) => Some(i + 1),
            None => None,
        }
    }
}

/// `bytes` with the eight bytes at `at` replaced by `value`, little-endian.
pub open spec fn patched(bytes: Seq<u8>, at: int, value: u64) -> Seq<u8> {
    bytes.subrange(0, at) + spec_u64_to_le_bytes(value) + bytes.subrange(
        at + 8,
        bytes.len() as int,
    )
}

/// The eight bytes of `bytes` at `at`.
pub open spec fn slot(bytes: Seq<u8>, at: int) -> Seq<u8> {
    bytes.subrange(at, at + 8)
}

pub proof fn lemma_find_import_bounds(imports: Seq<ImportView>, module: Seq<char>, name: Option<Seq<char>>)
    ensures
        match find_import(imports, module, name) {
            Some(i) => 0 <= i < imports.len() && import_matches(imports[i], module, name)
                && forall|j: int| 0 <= j < i ==> !import_matches(#[trigger] imports[j], module, name),
            None => forall|j: int| 0 <= j < imports.len() ==> !import_matches(#[trigger] imports[j], module, name),
        },
    decreases imports.len(),
{
    if imports.len() == 0 {
    } else if import_matches(imports[0], module, name) {
    } else {
        let rest = imports.skip(1);
        lemma_find_import_bounds(rest, module, name);
        match find_import(rest, module, name) {
            Some(i) => {
                assert forall|j: int| 0 <= j < i + 1 implies !import_matches(
                    #[trigger] imports[j],
                    module,
                    name,
                ) by {
                    if j > 0 {
                        assert(imports[j] == rest[j - 1]);
                    }
                }
            },
            None => {
                assert forall|j: int| 0 <= j < imports.len() implies !import_matches(
                    #[trigger] imports[j],
                    module,
                    name,
                ) by {
                    if j > 0 {
                        assert(imports[j] == rest[j - 1]);
                    }
                }
            },
        }
    }
}

/// Whether the byte at `at` is one of the eight of the import's slot.
pub open spec fn in_slot(import: ImportView, at: usize) -> bool {
    import.offset <= at < import.offset + SLOT_BYTES
}

/// Whether the byte at `at` lies outside the slot of every import.
pub open spec fn clear_of(imports: Seq<ImportView>, at: usize) -> bool {
    forall|i: int| 0 <= i < imports.len() ==> !in_slot(#[trigger] imports[i], at)
}

/// Whether the eight bytes at `at` share no byte with the import's slot.
pub open spec fn apart(import: ImportView, at: usize) -> bool {
    import.offset + SLOT_BYTES <= at || at + SLOT_BYTES <= import.offset
}

/// Whether the eight bytes at `at` share no byte with the slot of any import.
pub open spec fn apart_from(imports: Seq<ImportView>, at: usize) -> bool {
    forall|i: int| 0 <= i < imports.len() ==> apart(#[trigger] imports[i], at)
}

/// The tables of a module.
pub struct Module {
    functions: BTreeMap<u32, usize>,
    function_slots: BTreeMap<u32, usize>,
    function_bodies: BTreeMap<u32, usize>,
    function_stack_heights: BTreeMap<u32, u32>,
    function_frames: BTreeMap<u32, bool>,
    exports: Vec<(String, u32)>,
    imports: Vec<Import>,
    memories: Vec<MemoryType>,
}

impl View for Module {
    type V = ModuleView;

    closed spec fn view(&self) -> ModuleView {
        ModuleView {
            functions: self.functions@,
            slots: self.function_slots@,
            bodies: self.function_bodies@,
            heights: self.function_stack_heights@,
            frames: self.function_frames@,
            exports: Seq::new(self.exports@.len(), |i: int| (self.exports@[i].0@, self.exports@[i].1)),
            imports: Seq::new(self.imports@.len(), |i: int| self.imports@[i]@),
            memories: self.memories@,
        }
    }
}

/// A way to name a function of a module.
pub trait FunctionIdentifier {
    /// The index of the function named, where the module holds its code.
    spec fn resolve(&self, module: ModuleView) -> Option<u32>;

    fn find_function(&self, module: &Module) -> (index: Option<u32>)
        ensures
            index == self.resolve(module@),
    ;
}

/// By index: the function with that index, where its code was recorded.
impl FunctionIdentifier for u32 {
    open spec fn resolve(&self, module: ModuleView) -> Option<u32> {
        if module.bodies.contains_key(*self) {
            Some(*self)
        } else {
            None
        }
    }

    fn find_function(&self, module: &Module) -> (index: Option<u32>) {
        if module.function_bodies.contains_key(self) {
            Some(*self)
        } else {
            None
        }
    }
}

/// By exported name: the function whose index the name stands for, where its
/// code was recorded.
impl FunctionIdentifier for &str {
    open spec fn resolve(&self, module: ModuleView) -> Option<u32> {
        match export_index(module.exports, self@) {
            Some(index) => index.resolve(module),
            None => None,
        }
    }

    fn find_function(&self, module: &Module) -> (index: Option<u32>) {
        match module.export(self) {
            Some(index) => index.find_function(module),
            None => None,
        }
    }
}

impl Module {
    /// A module with empty tables.
    pub fn new() -> (m: Module)
        ensures
            m@.functions == Map::<u32, usize>::empty(),
            m@.slots == Map::<u32, usize>::empty(),
            m@.bodies == Map::<u32, usize>::empty(),
            m@.heights == Map::<u32, u32>::empty(),
            m@.frames == Map::<u32, bool>::empty(),
            m@.exports == Seq::<(Seq<char>, u32)>::empty(),
            m@.imports == Seq::<ImportView>::empty(),
            m@.memories == Seq::<MemoryType>::empty(),
    {
        let m = Module {
            functions: BTreeMap::new(),
            function_slots: BTreeMap::new(),
            function_bodies: BTreeMap::new(),
            function_stack_heights: BTreeMap::new(),
            function_frames: BTreeMap::new(),
            exports: Vec::new(),
            imports: Vec::new(),
            memories: Vec::new(),
        };
        assert(m@.exports =~= Seq::<(Seq<char>, u32)>::empty());
        assert(m@.imports =~= Seq::<ImportView>::empty());
        m
    }

    /// The exported names with the index each stands for, in the order
    /// recorded.
    pub fn exports(&self) -> (list: &Vec<(String, u32)>)
        ensures
            list@.len() == self@.exports.len(),
            forall|i: int|
                0 <= i < list@.len() ==> (#[trigger] list@[i]).0@ == self@.exports[i].0
                    && list@[i].1 == self@.exports[i].1,
    {
        &self.exports
    }

    /// The imported functions, in the order of their indices.
    pub fn imports(&self) -> (list: &Vec<Import>)
        ensures
            list@.len() == self@.imports.len(),
            forall|i: int| 0 <= i < list@.len() ==> (#[trigger] list@[i])@ == self@.imports[i],
    {
        &self.imports
    }

    /// How many functions the module declares itself.
    pub fn declared_functions(&self) -> (n: usize)
        ensures
            n == self@.functions.len(),
    {
        self.functions.len()
    }

    /// The index that an exported name stands for.
    pub fn export(&self, name: &str) -> (index: Option<u32>)
        ensures
            index == export_index(self@.exports, name@),
    {
        let wanted: String = name.to_owned();
        let mut i: usize = self.exports.len();
        let ghost all = self@.exports;
        assert(all.subrange(0, i as int) =~= all);
        while i > 0
            invariant
                0 <= i <= self.exports@.len(),
                all == self@.exports,
                all.len() == self.exports@.len(),
                wanted@ == name@,
                export_index(all, name@) == export_index(all.subrange(0, i as int), name@),
            decreases i,
        {
            i = i - 1;
            let ghost head = all.subrange(0, i + 1);
            assert(head.drop_last() =~= all.subrange(0, i as int));
            assert(head.last() == all[i as int]);
            if self.exports[i].0 == wanted {
                return Some(self.exports[i].1);
            }
        }
        None
    }

    /// Byte offset in the code of the first instruction of the function that
    /// `identifier` names.
    pub fn function_entry_point<I: FunctionIdentifier>(&self, identifier: I) -> (offset: Option<usize>)
        ensures
            offset == match identifier.resolve(self@) {
                Some(index) => if self@.bodies.contains_key(index) {
                    Some(self@.bodies[index])
                } else {
                    None
                },
                None => None,
            },
    {
        match identifier.find_function(self) {
            Some(index) => match self.function_bodies.get(&index) {
                Some(offset) => Some(*offset),
                None => None,
            },
            None => None,
        }
    }

    /// The greatest depth that the operand stack of the function that
    /// `identifier` names reached.
    pub fn function_stack_height<I: FunctionIdentifier>(&self, identifier: I) -> (height: Option<u32>)
        ensures
            height == match identifier.resolve(self@) {
                Some(index) => if self@.heights.contains_key(index) {
                    Some(self@.heights[index])
                } else {
                    None
                },
                None => None,
            },
    {
        match identifier.find_function(self) {
            Some(index) => match self.function_stack_heights.get(&index) {
                Some(height) => Some(*height),
                None => None,
            },
            None => None,
        }
    }

    /// Byte offset in the code of the slot of the function that `identifier`
    /// names.
    pub fn function_slot<I: FunctionIdentifier>(&self, identifier: I) -> (offset: Option<usize>)
        ensures
            offset == match identifier.resolve(self@) {
                Some(index) => if self@.slots.contains_key(index) {
                    Some(self@.slots[index])
                } else {
                    None
                },
                None => None,
            },
    {
        match identifier.find_function(self) {
            Some(index) => match self.function_slots.get(&index) {
                Some(offset) => Some(*offset),
                None => None,
            },
            None => None,
        }
    }

    /// Whether the code of the function that `identifier` names still begins
    /// by saving `rbp`.
    pub fn function_keeps_frame<I: FunctionIdentifier>(&self, identifier: I) -> (framed: Option<bool>)
        ensures
            framed == match identifier.resolve(self@) {
                Some(index) => if self@.frames.contains_key(index) {
                    Some(self@.frames[index])
                } else {
                    None
                },
                None => None,
            },
    {
        match identifier.find_function(self) {
            Some(index) => match self.function_frames.get(&index) {
                Some(framed) => Some(*framed),
                None => None,
            },
            None => None,
        }
    }

    /// The memories of the module, in the order declared.
    pub fn memory_types(&self) -> (memories: &[MemoryType])
        ensures
            memories@ == self@.memories,
    {
        self.memories.as_slice()
    }
}

impl Module {
    /// Records the instruction that is the slot of function `index`.
    pub(crate) fn record_function(&mut self, index: u32, slot: usize)
        ensures
            final(self)@ == (ModuleView { functions: old(self)@.functions.insert(index, slot), ..old(self)@ }),
    {
        self.functions.insert(index, slot);
    }

    /// Records where the code of function `index` starts, and whether it
    /// begins by saving `rbp`.
    pub(crate) fn record_body(&mut self, index: u32, offset: usize, framed: bool)
        ensures
            final(self)@ == (ModuleView {
                bodies: old(self)@.bodies.insert(index, offset),
                frames: old(self)@.frames.insert(index, framed),
                ..old(self)@
            }),
    {
        self.function_bodies.insert(index, offset);
        self.function_frames.insert(index, framed);
    }

    /// The index of the import recorded last.
    pub(crate) fn last_import(&self) -> (index: Option<u32>)
        ensures
            index == (if self@.imports.len() > 0 {
                Some(self@.imports.last().index)
            } else {
                None
            }),
    {
        if self.imports.len() > 0 {
            let last: &Import = &self.imports[self.imports.len() - 1];
            assert(self@.imports.last() == last@);
            Some(last.index)
        } else {
            None
        }
    }

    /// Records where the slot of function `index` lies.
    pub(crate) fn record_slot(&mut self, index: u32, offset: usize)
        ensures
            final(self)@ == (ModuleView { slots: old(self)@.slots.insert(index, offset), ..old(self)@ }),
    {
        self.function_slots.insert(index, offset);
    }

    /// Where the code of function `index` starts, where that is recorded.
    pub(crate) fn body_offset(&self, index: u32) -> (offset: Option<usize>)
        ensures
            offset == (if self@.bodies.contains_key(index) {
                Some(self@.bodies[index])
            } else {
                None
            }),
    {
        match self.function_bodies.get(&index) {
            Some(offset) => Some(*offset),
            None => None,
        }
    }

    /// Whether the eight bytes at `at` share no byte with the slot of any
    /// import.
    pub(crate) fn apart_from_slots(&self, at: usize) -> (b: bool)
        requires
            at + SLOT_BYTES <= usize::MAX,
        ensures
            b == apart_from(self@.imports, at),
    {
        let mut i: usize = 0;
        while i < self.imports.len()
            invariant
                0 <= i <= self.imports@.len(),
                at + SLOT_BYTES <= usize::MAX,
                self@.imports.len() == self.imports@.len(),
                forall|j: int| 0 <= j < i ==> apart(#[trigger] self@.imports[j], at),
            decreases self.imports@.len() - i,
        {
            let offset: usize = self.imports[i].offset;
            assert(self@.imports[i as int].offset == offset);
            let below: bool = offset <= at && at - offset < SLOT_BYTES;
            let above: bool = at <= offset && offset - at < SLOT_BYTES;
            if below || above {
                assert(!apart(self@.imports[i as int], at));
                return false;
            }
            i = i + 1;
        }
        true
    }

    /// Whether the byte at `at` lies outside the slot of every import.
    pub(crate) fn clear_of_slots(&self, at: usize) -> (b: bool)
        ensures
            b == clear_of(self@.imports, at),
    {
        let mut i: usize = 0;
        while i < self.imports.len()
            invariant
                0 <= i <= self.imports@.len(),
                self@.imports.len() == self.imports@.len(),
                forall|j: int| 0 <= j < i ==> !in_slot(#[trigger] self@.imports[j], at),
            decreases self.imports@.len() - i,
        {
            let offset: usize = self.imports[i].offset;
            assert(self@.imports[i as int].offset == offset);
            if offset <= at && at - offset < SLOT_BYTES {
                return false;
            }
            i = i + 1;
        }
        true
    }

    /// Records the greatest depth of the operand stack of function `index`.
    pub(crate) fn record_height(&mut self, index: u32, height: u32)
        ensures
            final(self)@ == (ModuleView { heights: old(self)@.heights.insert(index, height), ..old(self)@ }),
    {
        self.function_stack_heights.insert(index, height);
    }

    /// Records that `name` stands for `index`.
    pub(crate) fn record_export(&mut self, name: String, index: u32)
        ensures
            final(self)@ == (ModuleView { exports: old(self)@.exports.push((name@, index)), ..old(self)@ }),
    {
        self.exports.push((name, index));
        assert(self@.exports =~= old(self)@.exports.push((name@, index)));
        assert(self@.imports =~= old(self)@.imports);
    }

    /// Records an imported function.
    pub(crate) fn record_import(&mut self, import: Import)
        ensures
            final(self)@ == (ModuleView { imports: old(self)@.imports.push(import@), ..old(self)@ }),
    {
        self.imports.push(import);
        assert(self@.imports =~= old(self)@.imports.push(import@));
        assert(self@.exports =~= old(self)@.exports);
    }

    /// Records a memory.
    pub(crate) fn record_memory(&mut self, memory: MemoryType)
        ensures
            final(self)@ == (ModuleView { memories: old(self)@.memories.push(memory), ..old(self)@ }),
    {
        self.memories.push(memory);
        assert(self@.imports =~= old(self)@.imports);
        assert(self@.exports =~= old(self)@.exports);
    }
}

/// A compiled module as a mathematical value.
pub struct AssembledView {
    pub module: ModuleView,
    pub binary: Seq<u8>,
}

impl AssembledView {
    /// Every import's slot lies within the code, the imports stand in the order
    /// of their indices, and no two slots share a byte; every function whose code is
    /// recorded starts within the code, and the depth of its operand stack is
    /// recorded too, and so is whether it keeps its frame; every function that
    /// keeps its frame starts, outside all slots of imports, with the byte of
    /// `push rbp`; and
    /// every function's slot that is recorded lies within the code, apart from
    /// the slots of imports, and holds the offset of the function's code.
    pub open spec fn wf(self) -> bool {
        &&& forall|i: int|
            0 <= i < self.module.imports.len() ==> (#[trigger] self.module.imports[i]).offset
                + SLOT_BYTES <= self.binary.len()
        &&& forall|f: u32| #[trigger]
            self.module.bodies.contains_key(f) ==> self.module.bodies[f] < self.binary.len()
                && self.module.heights.contains_key(f)
        &&& forall|i: int, j: int|
            0 <= i < j < self.module.imports.len() ==> (#[trigger] self.module.imports[i]).index < (
            #[trigger] self.module.imports[j]).index && apart(
                self.module.imports[i],
                self.module.imports[j].offset,
            )
        &&& self.module.frames.dom() == self.module.bodies.dom()
        &&& forall|f: u32|
            self.module.frames.contains_key(f) && #[trigger] self.module.frames[f] ==> {
                &&& self.module.bodies.contains_key(f)
                &&& self.binary[self.module.bodies[f] as int] == PUSH_RBP
                &&& clear_of(self.module.imports, self.module.bodies[f])
            }
        &&& forall|f: u32| #[trigger]
            self.module.slots.contains_key(f) ==> {
                &&& self.module.bodies.contains_key(f)
                &&& self.module.slots[f] + SLOT_BYTES <= self.binary.len()
                &&& slot(self.binary, self.module.slots[f] as int) == spec_u64_to_le_bytes(
                    self.module.bodies[f] as u64,
                )
                &&& apart_from(self.module.imports, self.module.slots[f])
            }
    }

    /// Every import's slot holds the value that marks it as not linked.
    pub open spec fn unlinked(self) -> bool {
        forall|i: int|
            0 <= i < self.module.imports.len() ==> slot(
                self.binary,
                (#[trigger] self.module.imports[i]).offset as int,
            ) == spec_u64_to_le_bytes(UNLINKED)
    }

    /// The module after the import that `module` and `name` mean is given the
    /// address `addr`: the eight bytes of the first such import's slot hold
    /// `addr`, and nothing else has changed. Where they mean no import,
    /// nothing has changed.
    pub open spec fn linked(self, module: Seq<char>, name: Option<Seq<char>>, addr: u64) -> AssembledView {
        match find_import(self.module.imports, module, name) {
            Some(i) => AssembledView {
                module: self.module,
                binary: patched(self.binary, self.module.imports[i].offset as int, addr),
            },
            None => self,
        }
    }
}

/// A write to a slot leaves the length of the code as it was, puts the value
/// in the slot, and leaves every byte outside the slot as it was.
pub proof fn lemma_patched(bytes: Seq<u8>, at: int, value: u64)
    requires
        0 <= at,
        at + 8 <= bytes.len(),
    ensures
        patched(bytes, at, value).len() == bytes.len(),
        slot(patched(bytes, at, value), at) == spec_u64_to_le_bytes(value),
        forall|j: int|
            0 <= j < bytes.len() && !(at <= j < at + 8) ==> #[trigger] patched(bytes, at, value)[j]
                == bytes[j],
        patched(patched(bytes, at, value), at, value) == patched(bytes, at, value),
{
    vstd::bytes::spec_u64_to_le_bytes_to_open(value);
    let le = spec_u64_to_le_bytes(value);
    assert(le.len() == 8);
    let p = patched(bytes, at, value);
    assert(slot(p, at) =~= le);
    assert(patched(p, at, value) =~= p);
}

/// Linking is a write to one slot: linking again with the same names and the
/// same address changes nothing, and the slot of the import that was meant
/// holds the address, least significant byte first.
pub proof fn lemma_link_import_idempotent(m: AssembledView, module: Seq<char>, name: Option<Seq<char>>, addr: u64)
    requires
        m.wf(),
    ensures
        m.linked(module, name, addr).wf(),
        m.linked(module, name, addr).linked(module, name, addr) == m.linked(module, name, addr),
        match find_import(m.module.imports, module, name) {
            Some(i) => slot(
                m.linked(module, name, addr).binary,
                m.module.imports[i].offset as int,
            ) == spec_u64_to_le_bytes(addr),
            None => m.linked(module, name, addr) == m,
        },
{
    lemma_find_import_bounds(m.module.imports, module, name);
    match find_import(m.module.imports, module, name) {
        Some(i) => {
            let at = m.module.imports[i].offset;
            lemma_patched(m.binary, at as int, addr);
            let after = m.linked(module, name, addr);
            assert forall|f: u32|
                after.module.frames.contains_key(f) && #[trigger] after.module.frames[f] implies {
                &&& after.module.bodies.contains_key(f)
                &&& after.binary[after.module.bodies[f] as int] == PUSH_RBP
                &&& clear_of(after.module.imports, after.module.bodies[f])
            } by {
                assert(!in_slot(m.module.imports[i], m.module.bodies[f]));
            }
            assert forall|f: u32| #[trigger] after.module.slots.contains_key(f) implies slot(
                after.binary,
                after.module.slots[f] as int,
            ) == slot(m.binary, m.module.slots[f] as int) by {
                assert(apart(m.module.imports[i], m.module.slots[f]));
                assert(slot(after.binary, m.module.slots[f] as int) =~= slot(
                    m.binary,
                    m.module.slots[f] as int,
                ));
            }
        },
        None => {},
    }
}

/// A function of a compiled module that keeps its frame begins with the byte
/// of `push rbp`, before and after any import is linked.
pub proof fn lemma_framed_entry(m: AssembledView, f: u32, module: Seq<char>, name: Option<Seq<char>>, addr: u64)
    requires
        m.wf(),
        m.module.frames.contains_key(f),
        m.module.frames[f],
    ensures
        m.module.bodies.contains_key(f),
        m.module.bodies[f] < m.binary.len(),
        m.binary[m.module.bodies[f] as int] == PUSH_RBP,
        m.linked(module, name, addr).binary[m.module.bodies[f] as int] == PUSH_RBP,
{
    lemma_link_import_idempotent(m, module, name, addr);
    let after = m.linked(module, name, addr);
    assert(after.module.frames.contains_key(f) && after.module.frames[f]);
}

/// An exported name of a function whose code is recorded names that function:
/// it has an entry point and a stack height, those of the function's index.
pub proof fn lemma_exported_function(m: AssembledView, name: &str, f: u32)
    requires
        m.wf(),
        export_index(m.module.exports, name@) == Some(f),
        m.module.bodies.contains_key(f),
    ensures
        name.resolve(m.module) == Some(f),
        f.resolve(m.module) == Some(f),
        m.module.heights.contains_key(f),
{
}

/// A function of a compiled module that a host can enter has the depth of its
/// operand stack recorded: whenever an identifier gives an entry point, it
/// gives a stack height too.
pub proof fn lemma_entry_has_height<I: FunctionIdentifier>(m: AssembledView, identifier: I)
    requires
        m.wf(),
        identifier.resolve(m.module) is Some,
        m.module.bodies.contains_key(identifier.resolve(m.module)->Some_0),
    ensures
        m.module.heights.contains_key(identifier.resolve(m.module)->Some_0),
{
}

/// A compiled module: the tables and the machine code they speak of.
pub struct AssembledModule {
    module: Module,
    assembled: Vec<u8>,
}

impl View for AssembledModule {
    type V = AssembledView;

    closed spec fn view(&self) -> AssembledView {
        AssembledView { module: self.module@, binary: self.assembled@ }
    }
}

impl core::ops::Deref for AssembledModule {
    type Target = Module;

    fn deref(&self) -> (module: &Module)
        ensures
            module@ == self@.module,
    {
        &self.module
    }
}

impl AssembledModule {
    #[verifier::type_invariant]
    spec fn inv(self) -> bool {
        self@.wf()
    }

    /// The tables of the module.
    pub fn tables(&self) -> (module: &Module)
        ensures
            module@ == self@.module,
    {
        &self.module
    }

    /// The machine code.
    pub fn binary(&self) -> (code: &[u8])
        ensures
            code@ == self@.binary,
            self@.wf(),
    {
        proof {
            use_type_invariant(self);
        }
        self.assembled.as_slice()
    }

    /// Byte offset in the code of the first instruction of the function that
    /// `identifier` names.
    pub fn function_entry_point<I: FunctionIdentifier>(&self, identifier: I) -> (offset: Option<usize>)
        ensures
            offset == match identifier.resolve(self@.module) {
                Some(index) => if self@.module.bodies.contains_key(index) {
                    Some(self@.module.bodies[index])
                } else {
                    None
                },
                None => None,
            },
            offset is Some ==> offset->Some_0 < self@.binary.len(),
    {
        proof {
            use_type_invariant(self);
        }
        self.module.function_entry_point(identifier)
    }

    /// The greatest depth that the operand stack of the function that
    /// `identifier` names reached.
    pub fn function_stack_height<I: FunctionIdentifier>(&self, identifier: I) -> (height: Option<u32>)
        ensures
            height == match identifier.resolve(self@.module) {
                Some(index) => if self@.module.heights.contains_key(index) {
                    Some(self@.module.heights[index])
                } else {
                    None
                },
                None => None,
            },
    {
        self.module.function_stack_height(identifier)
    }

    /// Byte offset in the code of the slot of the function that `identifier`
    /// names: eight bytes that hold the function's entry point, least
    /// significant byte first. The entry point is an offset in the code: who
    /// loads the code elsewhere than at address zero adds the address.
    pub fn function_slot<I: FunctionIdentifier>(&self, identifier: I) -> (offset: Option<usize>)
        ensures
            offset == match identifier.resolve(self@.module) {
                Some(index) => if self@.module.slots.contains_key(index) {
                    Some(self@.module.slots[index])
                } else {
                    None
                },
                None => None,
            },
            offset is Some ==> offset->Some_0 + SLOT_BYTES <= self@.binary.len() && slot(
                self@.binary,
                offset->Some_0 as int,
            ) == spec_u64_to_le_bytes(
                self@.module.bodies[identifier.resolve(self@.module)->Some_0] as u64,
            ),
    {
        proof {
            use_type_invariant(self);
        }
        self.module.function_slot(identifier)
    }

    /// Whether the code of the function that `identifier` names still begins
    /// by saving `rbp`; where it does, the byte at its entry point is that of
    /// `push rbp`.
    pub fn function_keeps_frame<I: FunctionIdentifier>(&self, identifier: I) -> (framed: Option<bool>)
        ensures
            framed == match identifier.resolve(self@.module) {
                Some(index) => if self@.module.frames.contains_key(index) {
                    Some(self@.module.frames[index])
                } else {
                    None
                },
                None => None,
            },
            framed == Some(true) ==> self@.binary[self@.module.bodies[identifier.resolve(
                self@.module,
            )->Some_0] as int] == PUSH_RBP,
    {
        proof {
            use_type_invariant(self);
        }
        self.module.function_keeps_frame(identifier)
    }

    /// The memories of the module, in the order declared.
    pub fn memory_types(&self) -> (memories: &[MemoryType])
        ensures
            memories@ == self@.module.memories,
    {
        self.module.memory_types()
    }

    /// Gives the address `addr` to the first import whose module name is
    /// `module` and whose field name is `name`: the eight bytes of its slot
    /// then hold `addr`, least significant byte first. An import without a
    /// field name is never found, with or without `name`. Where no import is
    /// found nothing changes.
    pub fn link_import(&mut self, module: &str, name: Option<&str>, addr: u64)
        ensures
            final(self)@ == old(self)@.linked(
                module@,
                match name {
                    Some(n) => Some(n@),
                    None => None,
                },
                addr,
            ),
    {
        proof {
            use_type_invariant(&*self);
        }
        let ghost wanted = match name {
            Some(n) => Some(n@),
            None => None,
        };
        let found: Option<usize> = self.module.import_slot(module, name);
        proof {
            lemma_find_import_bounds(self@.module.imports, module@, wanted);
        }
        match found {
            Some(offset) => {
                proof {
                    let i = find_import(self@.module.imports, module@, wanted)->Some_0;
                    assert forall|f: u32|
                        self@.module.frames.contains_key(f) && #[trigger] self@.module.frames[f] implies !(
                    offset <= self@.module.bodies[f] < offset + 8) by {
                        assert(!in_slot(self@.module.imports[i], self@.module.bodies[f]));
                    }
                    assert forall|f: u32| #[trigger]
                        self@.module.slots.contains_key(f) implies offset + 8
                        <= self@.module.slots[f] || self@.module.slots[f] + 8 <= offset by {
                        assert(apart(self@.module.imports[i], self@.module.slots[f]));
                    }
                }
                let bytes: [u8; 8] = le_bytes(addr);
                let ghost before = self.assembled@;
                let total: usize = self.assembled.len();
                let mut k: usize = 0;
                while k < 8
                    invariant
                        0 <= k <= 8,
                        total == before.len(),
                        old(self)@.wf(),
                        before == old(self)@.binary,
                        offset + 8 <= before.len(),
                        self.assembled@.len() == before.len(),
                        self.module@ == old(self).module@,
                        bytes@ == spec_u64_to_le_bytes(addr),
                        forall|j: int| 0 <= j < k ==> self.assembled@[offset + j] == bytes@[j],
                        forall|j: int|
                            0 <= j < before.len() && !(offset <= j < offset + k)
                                ==> self.assembled@[j] == before[j],
                        forall|f: u32|
                            old(self)@.module.frames.contains_key(f) && #[trigger] old(
                                self,
                            )@.module.frames[f] ==> !(offset <= old(self)@.module.bodies[f] < offset
                                + 8),
                        forall|f: u32| #[trigger]
                            old(self)@.module.slots.contains_key(f) ==> offset + 8 <= old(
                                self,
                            )@.module.slots[f] || old(self)@.module.slots[f] + 8 <= offset,
                    decreases 8 - k,
                {
                    let at: usize = offset + k;
                    let byte: u8 = bytes[k];
                    proof {
                        let now = self.assembled@;
                        assert forall|v: u8, f: u32|
                            old(self)@.module.slots.contains_key(f) implies #[trigger] slot(
                            #[trigger] now.update(at as int, v),
                            old(self)@.module.slots[f] as int,
                        ) == slot(before, old(self)@.module.slots[f] as int) by {
                            assert(slot(
                                now.update(at as int, v),
                                old(self)@.module.slots[f] as int,
                            ) =~= slot(before, old(self)@.module.slots[f] as int));
                        }
                    }
                    self.assembled[at] = byte;
                    k = k + 1;
                }
                proof {
                    vstd::bytes::spec_u64_to_le_bytes_to_open(addr);
                    assert(self.assembled@ =~= patched(before, offset as int, addr));
                }
            },
            None => {},
        }
    }
}

impl Module {
    /// Joins the tables with the code they speak of.
    pub(crate) fn assembled(self, assembled: Vec<u8>) -> (m: AssembledModule)
        requires
            (AssembledView { module: self@, binary: assembled@ }).wf(),
        ensures
            m@ == (AssembledView { module: self@, binary: assembled@ }),
    {
        AssembledModule { module: self, assembled }
    }

    /// The offset of the slot of the first import that `module` and `name`
    /// mean.
    pub fn import_slot(&self, module: &str, name: Option<&str>) -> (offset: Option<usize>)
        ensures
            offset == match find_import(
                self@.imports,
                module@,
                match name {
                    Some(n) => Some(n@),
                    None => None,
                },
            ) {
                Some(i) => Some(self@.imports[i].offset),
                None => None,
            },
    {
        let ghost wanted = match name {
            Some(n) => Some(n@),
            None => None,
        };
        let ghost all = self@.imports;
        let wanted_module: String = module.to_owned();
        let wanted_name: Option<String> = match name {
            Some(n) => Some(n.to_owned()),
            None => None,
        };
        let mut i: usize = 0;
        while i < self.imports.len()
            invariant
                0 <= i <= self.imports@.len(),
                all == self@.imports,
                all.len() == self.imports@.len(),
                wanted_module@ == module@,
                wanted == match name {
                    Some(n) => Some(n@),
                    None => None,
                },
                wanted == match wanted_name {
                    Some(n) => Some(n@),
                    None => None,
                },
                forall|j: int| 0 <= j < i ==> !import_matches(#[trigger] all[j], module@, wanted),
            decreases self.imports@.len() - i,
        {
            let import: &Import = &self.imports[i];
            assert(all[i as int] == import@);
            let names_equal: bool = match (&wanted_name, &import.field) {
                (Some(n), Some(f)) => *n == *f,
                _ => false,
            };
            if import.module == wanted_module && names_equal {
                proof {
                    assert(import_matches(all[i as int], module@, wanted));
                    lemma_find_import_bounds(all, module@, wanted);
                    match find_import(all, module@, wanted) {
                        Some(k) => {
                            if k < i {
                                assert(!import_matches(all[k], module@, wanted));
                            }
                            if k > i {
                                assert(!import_matches(all[i as int], module@, wanted));
                            }
                            assert(k == i);
                        },
                        None => {},
                    }
                }
                return Some(import.offset);
            }
            assert(!import_matches(all[i as int], module@, wanted));
            i = i + 1;
        }
        proof {
            lemma_find_import_bounds(all, module@, wanted);
            match find_import(all, module@, wanted) {
                Some(k) => {
                    assert(!import_matches(all[k], module@, wanted));
                },
                None => {},
            }
        }
        None
    }
}

} // verus!
