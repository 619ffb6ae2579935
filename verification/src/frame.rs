//! The stack frame of a compiled function: where its locals live, and the
//! code that opens and closes the frame.

use crate::error::Error;
use crate::instr::{Instr, Reg, Width};
use crate::types::ValueType;
use vstd::prelude::*;

verus! {

/// One local of a function: a parameter or a declared local.
#[derive(Clone, Copy, Debug, PartialEq, Eq, Structural)]
pub struct Local {
    /// Distance of the local below `rbp`: it lives at `[rbp - offset]`.
    pub offset: u32,
    /// Its type.
    pub ty: ValueType,
}

/// Bytes that values of `types` take together; a type without a size counts
/// for nothing.
pub open spec fn frame_bytes(types: Seq<ValueType>) -> int
    decreases types.len(),
{
    if types.len() == 0 {
        0
    } else {
        frame_bytes(types.drop_last()) + match types.last().size_spec() {
            Some(n) => n as int,
            None => 0,
        }
    }
}

/// Every type of `types` has a size.
pub open spec fn all_sized(types: Seq<ValueType>) -> bool {
    forall|i: int| 0 <= i < types.len() ==> (#[trigger] types[i]).size_spec() is Some
}

/// Every type of `types` is an integer type.
pub open spec fn all_integers(types: Seq<ValueType>) -> bool {
    forall|i: int| 0 <= i < types.len() ==> (#[trigger] types[i]).is_integer()
}

/// The local with number `i` among locals of `types`: its offset is the sum
/// of the sizes up to and including its own.
pub open spec fn local_at(types: Seq<ValueType>, i: int) -> Local {
    Local { offset: frame_bytes(types.take(i + 1)) as u32, ty: types[i] }
}

/// The locals of a frame that holds values of `types`, in order.
pub open spec fn frame_locals(types: Seq<ValueType>) -> Seq<Local> {
    Seq::new(types.len(), |i: int| local_at(types, i))
}

/// The operand width of an integer type.
pub open spec fn width_spec(ty: ValueType) -> Width {
    if ty == ValueType::I32 {
        Width::Dword
    } else {
        Width::Qword
    }
}

/// The register that carries integer argument `k` of a call, for `k` below six.
pub open spec fn arg_reg(k: int) -> Reg {
    if k == 0 {
        Reg::Rdi
    } else if k == 1 {
        Reg::Rsi
    } else if k == 2 {
        Reg::Rdx
    } else if k == 3 {
        Reg::Rcx
    } else if k == 4 {
        Reg::R8
    } else {
        Reg::R9
    }
}

/// Number of integer arguments that travel in registers.
pub const ARG_REGS: usize = 6;

/// Distance above `rbp` of the first argument that does not travel in a
/// register.
pub const FIRST_STACK_ARG: u32 = 8;

pub fn arg_register(k: usize) -> (r: Reg)
    requires
        k < ARG_REGS,
    ensures
        r == arg_reg(k as int),
{
    if k == 0 {
        Reg::Rdi
    } else if k == 1 {
        Reg::Rsi
    } else if k == 2 {
        Reg::Rdx
    } else if k == 3 {
        Reg::Rcx
    } else if k == 4 {
        Reg::R8
    } else {
        Reg::R9
    }
}

pub fn width_of(ty: ValueType) -> (w: Width)
    ensures
        w == width_spec(ty),
{
    match ty {
        ValueType::I32 => Width::Dword,
        _ => Width::Qword,
    }
}

pub fn is_integer(ty: ValueType) -> (b: bool)
    ensures
        b == ty.is_integer(),
{
    match ty {
        ValueType::I32 => true,
        ValueType::I64 => true,
        _ => false,
    }
}

/// The locals of a function under construction, parameters first.
pub struct Frame {
    locals: Vec<Local>,
    types: Ghost<Seq<ValueType>>,
    size: u32,
}

impl Frame {
    /// The types of the locals, in order.
    pub closed spec fn types(&self) -> Seq<ValueType> {
        self.types@
    }

    /// The locals, in order.
    pub closed spec fn locals(&self) -> Seq<Local> {
        self.locals@
    }

    /// Bytes of the frame.
    pub closed spec fn size_spec(&self) -> u32 {
        self.size
    }

    /// The frame holds one local per type, each at the offset its
    /// predecessors leave it, and all of them fit in 32 bits.
    pub closed spec fn wf(&self) -> bool {
        &&& self.locals@.len() == self.types@.len()
        &&& all_sized(self.types@)
        &&& frame_bytes(self.types@) == self.size
        &&& forall|i: int|
            0 <= i < self.types@.len() ==> #[trigger] self.locals@[i] == local_at(self.types@, i)
    }

    pub proof fn lemma_wf(&self)
        requires
            self.wf(),
        ensures
            self.locals().len() == self.types().len(),
            all_sized(self.types()),
            frame_bytes(self.types()) == self.size_spec(),
            forall|i: int|
                0 <= i < self.types().len() ==> #[trigger] self.locals()[i] == local_at(
                    self.types(),
                    i,
                ),
    {
    }

    /// A well-formed frame is laid out as its types say.
    pub proof fn lemma_layout(&self)
        requires
            self.wf(),
        ensures
            self.locals() == frame_locals(self.types()),
            self.size_spec() == frame_bytes(self.types()),
            all_sized(self.types()),
    {
        assert(self.locals() =~= frame_locals(self.types()));
    }

    /// The frame of a function with the parameters given and no other local.
    /// Parameters of a type without a size are refused, and so are parameters
    /// of more bytes than 32 bits count.
    pub fn with_params(params: &Vec<ValueType>) -> (r: Result<Frame, Error>)
        ensures
            r is Ok <==> all_sized(params@) && frame_bytes(params@) <= u32::MAX,
            r is Ok ==> r->Ok_0.wf() && r->Ok_0.types() == params@,
            r is Err ==> r->Err_0 is UnsupportedType || r->Err_0 is Unsupported,
    {
        let mut frame: Frame = Frame::new();
        let mut i: usize = 0;
        assert(params@.take(0) =~= Seq::empty());
        while i < params.len()
            invariant
                0 <= i <= params@.len(),
                frame.wf(),
                frame.types() == params@.take(i as int),
            decreases params@.len() - i,
        {
            let ghost before = frame.size_spec();
            proof {
                frame.lemma_layout();
                lemma_frame_bytes_monotone(params@, i + 1);
                assert(params@.take(i + 1).drop_last() =~= params@.take(i as int));
                assert(params@.take(i + 1).last() == params@[i as int]);
            }
            match frame.extend(1, params[i]) {
                Ok(()) => {},
                Err(e) => {
                    proof {
                        match params@[i as int].size_spec() {
                            Some(n) => {
                                assert(n * 1 == n) by (nonlinear_arith);
                            },
                            None => {},
                        }
                    }
                    return Err(e);
                },
            }
            assert(frame.types() =~= params@.take(i + 1)) by {
                assert(Seq::new(1nat, |k: int| params@[i as int]) =~= seq![params@[i as int]]);
            }
            i = i + 1;
        }
        proof {
            assert(params@.take(i as int) =~= params@);
            frame.lemma_layout();
        }
        Ok(frame)
    }

    /// A frame without locals.
    pub fn new() -> (f: Frame)
        ensures
            f.wf(),
            f.types() == Seq::<ValueType>::empty(),
            f.size_spec() == 0,
    {
        Frame { locals: Vec::new(), types: Ghost(Seq::empty()), size: 0 }
    }

    /// Bytes of the frame.
    pub fn size(&self) -> (n: u32)
        ensures
            n == self.size_spec(),
    {
        self.size
    }

    /// The locals, in order.
    pub fn slots(&self) -> (l: &Vec<Local>)
        ensures
            l@ == self.locals(),
    {
        &self.locals
    }

    /// Adds `count` locals of type `ty` below those the frame holds. A type
    /// without a size is refused, and so is a frame of more bytes than 32 bits
    /// count; the frame is then as it was.
    pub fn extend(&mut self, count: u32, ty: ValueType) -> (r: Result<(), Error>)
        requires
            old(self).wf(),
        ensures
            final(self).wf(),
            match ty.size_spec() {
                None => r is Err && r->Err_0 is UnsupportedType && *final(self) == *old(self),
                Some(n) => if old(self).size_spec() + n * count <= u32::MAX {
                    &&& r is Ok
                    &&& final(self).types() == old(self).types() + Seq::new(
                        count as nat,
                        |i: int| ty,
                    )
                    &&& final(self).size_spec() == old(self).size_spec() + n * count
                } else {
                    r is Err && r->Err_0 is Unsupported && *final(self) == *old(self)
                },
            },
    {
        let n: u32 = match ty.encoding_size() {
            Ok(n) => n,
            Err(e) => {
                return Err(e);
            },
        };
        assert(n <= 16);
        assert(n * count <= 16 * 0xffff_ffff) by (nonlinear_arith)
            requires
                0 <= n <= 16,
                0 <= count <= 0xffff_ffff,
        ;
        let total: u64 = self.size as u64 + (n as u64) * (count as u64);
        if total > 0xffff_ffff {
            return Err(Error::Unsupported);
        }
        let ghost before = self.types@;
        let ghost start = self.size;
        let mut i: u32 = 0;
        assert(before + Seq::new(0nat, |k: int| ty) =~= before);
        while i < count
            invariant
                0 <= i <= count,
                self.wf(),
                ty.size_spec() == Some(n),
                start + n * count <= u32::MAX,
                self.size == start + n * i,
                self.types@ == before + Seq::new(i as nat, |k: int| ty),
            decreases count - i,
        {
            proof {
                assert(start + n * (i + 1) <= start + n * count) by (nonlinear_arith)
                    requires
                        i < count,
                        n >= 0,
                ;
                assert(n * (i + 1) == n * i + n) by (nonlinear_arith);
            }
            let ghost prev = self.types@;
            self.size = self.size + n;
            self.locals.push(Local { offset: self.size, ty });
            proof {
                self.types@ = prev.push(ty);
                let now = self.types@;
                assert(now.drop_last() =~= prev);
                assert(now =~= before + Seq::new((i + 1) as nat, |k: int| ty));
                assert forall|j: int| 0 <= j < now.len() implies #[trigger] self.locals@[j]
                    == local_at(now, j) by {
                    if j < prev.len() {
                        assert(now.take(j + 1) =~= prev.take(j + 1));
                    } else {
                        assert(now.take(j + 1) =~= now);
                    }
                }
            }
            i = i + 1;
        }
        Ok(())
    }
}

/// The offsets of the locals never decrease, and none is past the frame.
pub proof fn lemma_frame_bytes_monotone(types: Seq<ValueType>, i: int)
    requires
        0 <= i <= types.len(),
    ensures
        0 <= frame_bytes(types.take(i)) <= frame_bytes(types),
    decreases types.len() - i,
{
    if i == types.len() {
        assert(types.take(i) =~= types);
        lemma_frame_bytes_nonnegative(types);
    } else {
        lemma_frame_bytes_monotone(types, i + 1);
        assert(types.take(i + 1).drop_last() =~= types.take(i));
        lemma_frame_bytes_nonnegative(types.take(i));
    }
}

pub proof fn lemma_frame_bytes_nonnegative(types: Seq<ValueType>)
    ensures
        0 <= frame_bytes(types),
    decreases types.len(),
{
    if types.len() > 0 {
        lemma_frame_bytes_nonnegative(types.drop_last());
    }
}

/// The code that opens a frame: it saves the caller's frame pointer, makes
/// room for the locals, and moves every parameter to its local. Parameters
/// that travel in registers take them from the last of the registers used back
/// to the first; the others are read above the frame through `r11`, one after
/// the other.
pub open spec fn prologue_spec(params: Seq<ValueType>, locals: Seq<Local>, size: u32) -> Seq<Instr> {
    seq![Instr::Push(Reg::Rbp), Instr::Mov { dst: Reg::Rbp, src: Reg::Rsp }] + reserve_spec(size)
        + param_moves(params, locals, params.len() as int)
}

/// `sub rsp, size` for a frame that holds anything.
pub open spec fn reserve_spec(size: u32) -> Seq<Instr> {
    if size > 0 {
        seq![Instr::SubImm { dst: Reg::Rsp, imm: size }]
    } else {
        Seq::empty()
    }
}

/// `add rsp, size` for a frame that holds anything.
pub open spec fn release_spec(size: u32) -> Seq<Instr> {
    if size > 0 {
        seq![Instr::AddImm { dst: Reg::Rsp, imm: size }]
    } else {
        Seq::empty()
    }
}

/// How many of `count` parameters travel in registers.
pub open spec fn in_registers(count: int) -> int {
    if count < ARG_REGS {
        count
    } else {
        ARG_REGS as int
    }
}

/// Distance above `rbp` from which parameter `i` is read, for a parameter that
/// does not travel in a register.
pub open spec fn stack_arg_offset(params: Seq<ValueType>, i: int) -> int {
    FIRST_STACK_ARG + frame_bytes(params.subrange(ARG_REGS as int, i))
}

/// The code that moves parameter `i` to its local.
pub open spec fn param_move(params: Seq<ValueType>, locals: Seq<Local>, i: int) -> Seq<Instr> {
    let width = width_spec(params[i]);
    let disp = (-(locals[i].offset as int)) as i32;
    if i < ARG_REGS {
        seq![Instr::Store { disp, src: arg_reg(in_registers(params.len() as int) - 1 - i), width }]
    } else {
        seq![
            Instr::Load { dst: Reg::R11, disp: stack_arg_offset(params, i) as i32, width },
            Instr::Store { disp, src: Reg::R11, width },
        ]
    }
}

/// The code that moves the first `n` parameters to their locals.
pub open spec fn param_moves(params: Seq<ValueType>, locals: Seq<Local>, n: int) -> Seq<Instr>
    decreases n,
{
    if n <= 0 {
        Seq::empty()
    } else {
        param_moves(params, locals, n - 1) + param_move(params, locals, n - 1)
    }
}

/// The code that closes a frame: it takes the first result into `rax` and the
/// second into `rdx`, leaves any further result where it is, gives back the
/// room of the locals and leaves the function.
pub open spec fn epilogue_spec(results: Seq<ValueType>, size: u32) -> Seq<Instr> {
    result_pops(results.len() as int) + release_spec(size) + seq![
        Instr::Mov { dst: Reg::Rsp, src: Reg::Rbp },
        Instr::Pop(Reg::Rbp),
        Instr::Ret,
    ]
}

/// The pops that take `count` results off the stack.
pub open spec fn result_pops(count: int) -> Seq<Instr> {
    if count <= 0 {
        Seq::empty()
    } else if count == 1 {
        seq![Instr::Pop(Reg::Rax)]
    } else {
        seq![Instr::Pop(Reg::Rax), Instr::Pop(Reg::Rdx)]
    }
}

pub fn all_integer_types(types: &Vec<ValueType>) -> (b: bool)
    ensures
        b == all_integers(types@),
{
    let mut i: usize = 0;
    while i < types.len()
        invariant
            0 <= i <= types.len(),
            forall|j: int| 0 <= j < i ==> (#[trigger] types@[j]).is_integer(),
        decreases types.len() - i,
    {
        if !is_integer(types[i]) {
            return false;
        }
        i = i + 1;
    }
    true
}

/// Appends the prologue of a function to `program`. Parameters that are not
/// integers are refused, and `program` is then as it was.
pub fn emit_prologue(program: &mut Vec<Instr>, params: &Vec<ValueType>, frame: &Frame) -> (r: Result<(), Error>)
    requires
        frame.wf(),
        params@.len() <= frame.types().len(),
        frame.types().take(params@.len() as int) == params@,
    ensures
        r is Ok <==> all_integers(params@) && frame_bytes(params@) + FIRST_STACK_ARG <= i32::MAX,
        r is Ok ==> final(program)@ == old(program)@ + prologue_spec(
            params@,
            frame.locals(),
            frame.size_spec(),
        ),
        r is Err ==> r->Err_0 is Unsupported && final(program)@ == old(program)@,
{
    proof {
        frame.lemma_wf();
        lemma_frame_bytes_monotone(frame.types(), params@.len() as int);
    }
    if !all_integer_types(params) {
        return Err(Error::Unsupported);
    }
    let n: usize = params.len();
    let locals = frame.slots();
    if n > 0 && locals[n - 1].offset > 0x7fff_fff7 {
        proof {
            assert(frame.types().take(n as int) == params@);
        }
        return Err(Error::Unsupported);
    }
    let ghost start = program@;
    program.push(Instr::Push(Reg::Rbp));
    program.push(Instr::Mov { dst: Reg::Rbp, src: Reg::Rsp });
    if frame.size() > 0 {
        program.push(Instr::SubImm { dst: Reg::Rsp, imm: frame.size() });
    }
    let in_regs: usize = if n < ARG_REGS {
        n
    } else {
        ARG_REGS
    };
    let ghost head = seq![Instr::Push(Reg::Rbp), Instr::Mov { dst: Reg::Rbp, src: Reg::Rsp }]
        + reserve_spec(frame.size_spec());
    assert(program@ =~= start + head + param_moves(params@, frame.locals(), 0));
    let mut extra: u32 = FIRST_STACK_ARG;
    let mut i: usize = 0;
    proof {
        if n == 0 {
            assert(params@ =~= Seq::empty());
        }
    }
    while i < n
        invariant
            0 <= i <= n,
            n == params@.len(),
            n <= frame.types().len(),
            frame.wf(),
            locals@ == frame.locals(),
            frame.types().take(n as int) == params@,
            all_integers(params@),
            frame_bytes(params@) <= 0x7fff_fff7,
            in_regs == in_registers(n as int),
            program@ == start + head + param_moves(params@, frame.locals(), i as int),
            i >= ARG_REGS ==> extra == stack_arg_offset(params@, i as int),
            i < ARG_REGS ==> extra == FIRST_STACK_ARG,
        decreases n - i,
    {
        let ty: ValueType = params[i];
        let width: Width = width_of(ty);
        let local: Local = locals[i];
        proof {
            frame.lemma_wf();
            assert(local == local_at(frame.types(), i as int));
            assert(frame.types().take(i + 1) =~= params@.take(i + 1));
            lemma_frame_bytes_monotone(params@, i + 1);
            assert(ty.is_integer());
        }
        let disp: i32 = -(local.offset as i32);
        let ghost before = program@;
        if i < ARG_REGS {
            program.push(Instr::Store { disp, src: arg_register(in_regs - 1 - i), width });
        } else {
            proof {
                let sub = params@.subrange(ARG_REGS as int, i + 1);
                assert(sub.drop_last() =~= params@.subrange(ARG_REGS as int, i as int));
                lemma_subrange_bytes(params@, ARG_REGS as int, i + 1);
            }
            program.push(Instr::Load { dst: Reg::R11, disp: extra as i32, width });
            program.push(Instr::Store { disp, src: Reg::R11, width });
            let n_bytes: u32 = match ty {
                ValueType::I32 => 4,
                _ => 8,
            };
            extra = extra + n_bytes;
        }
        proof {
            assert(program@ =~= before + param_move(params@, frame.locals(), i as int));
            assert(program@ =~= start + head + param_moves(params@, frame.locals(), i + 1));
            if i + 1 == ARG_REGS {
                assert(params@.subrange(ARG_REGS as int, ARG_REGS as int) =~= Seq::empty());
            }
        }
        i = i + 1;
    }
    assert(program@ =~= start + prologue_spec(params@, frame.locals(), frame.size_spec()));
    Ok(())
}

/// The bytes of a stretch of the parameters are no more than those of all.
pub proof fn lemma_subrange_bytes(types: Seq<ValueType>, from: int, to: int)
    requires
        0 <= from <= to <= types.len(),
    ensures
        0 <= frame_bytes(types.subrange(from, to)) <= frame_bytes(types.take(to)),
    decreases to - from,
{
    if from == to {
        assert(types.subrange(from, to) =~= Seq::empty());
        lemma_frame_bytes_nonnegative(types.take(to));
    } else {
        lemma_subrange_bytes(types, from, to - 1);
        assert(types.subrange(from, to).drop_last() =~= types.subrange(from, to - 1));
        assert(types.take(to).drop_last() =~= types.take(to - 1));
        assert(types.subrange(from, to).last() == types.take(to).last());
    }
}

/// Appends the epilogue of a function to `program`. Results that are not
/// integers are refused, and `program` is then as it was.
pub fn emit_epilogue(program: &mut Vec<Instr>, results: &Vec<ValueType>, size: u32) -> (r: Result<(), Error>)
    ensures
        all_integers(results@) ==> r is Ok && final(program)@ == old(program)@ + epilogue_spec(
            results@,
            size,
        ),
        !all_integers(results@) ==> r is Err && r->Err_0 is Unsupported && final(program)@ == old(
            program,
        )@,
{
    if !all_integer_types(results) {
        return Err(Error::Unsupported);
    }
    let ghost start = program@;
    if results.len() >= 1 {
        program.push(Instr::Pop(Reg::Rax));
    }
    if results.len() >= 2 {
        program.push(Instr::Pop(Reg::Rdx));
    }
    if size > 0 {
        program.push(Instr::AddImm { dst: Reg::Rsp, imm: size });
    }
    program.push(Instr::Mov { dst: Reg::Rsp, src: Reg::Rbp });
    program.push(Instr::Pop(Reg::Rbp));
    program.push(Instr::Ret);
    assert(program@ =~= start + epilogue_spec(results@, size));
    Ok(())
}

} // verus!
