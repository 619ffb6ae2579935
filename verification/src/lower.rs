//! The lowering of one operator to the instructions that do its work on the
//! native stack, which stands for the operand stack.

use crate::error::Error;
use crate::frame::{
    all_integer_types, all_integers, arg_reg, arg_register, is_integer, width_of, width_spec, Local,
    ARG_REGS,
};
use crate::instr::{Instr, Label, Reg, Width};
use crate::types::Signature;
use std::collections::BTreeMap;
use vstd::prelude::*;

verus! {

broadcast use {vstd::std_specs::btree::group_btree_axioms, vstd::laws_cmp::group_laws_cmp};

/// An operator of a function body, as far as the compiler tells operators
/// apart.
#[derive(Clone, Copy, Debug, PartialEq, Eq, Structural)]
pub enum Op {
    Nop,
    End,
    Drop,
    I32Const(i32),
    I64Const(i64),
    LocalGet(u32),
    LocalSet(u32),
    LocalTee(u32),
    I32Add,
    I32Sub,
    I64Add,
    I64Sub,
    Call(u32),
    /// Any operator that the compiler does not lower.
    Other,
}

/// What the compiler knows of the functions of the module while it compiles
/// their bodies.
pub struct Tables {
    /// For each function defined in the module, the label of its first
    /// instruction.
    pub got: BTreeMap<u32, Label>,
    /// For each imported function, the label of the slot that holds its
    /// address.
    pub ils: BTreeMap<u32, Label>,
    /// For each function, the index of its signature.
    pub function_types: BTreeMap<u32, u32>,
    /// The signatures, by index.
    pub function_typedefs: BTreeMap<u32, Signature>,
}

/// The tables as mathematical values.
pub struct TablesView {
    pub got: Map<u32, Label>,
    pub ils: Map<u32, Label>,
    pub function_types: Map<u32, u32>,
    pub function_typedefs: Map<u32, Signature>,
}

impl View for Tables {
    type V = TablesView;

    open spec fn view(&self) -> TablesView {
        TablesView {
            got: self.got@,
            ils: self.ils@,
            function_types: self.function_types@,
            function_typedefs: self.function_typedefs@,
        }
    }
}

/// Largest distance below `rbp` that an instruction can reach.
pub const MAX_REACH: u32 = 0x7fff_ffff;

/// The signature of function `f`, where the tables hold it.
pub open spec fn signature_of(tables: TablesView, f: u32) -> Option<Signature> {
    if tables.function_types.contains_key(f) && tables.function_typedefs.contains_key(
        tables.function_types[f],
    ) {
        Some(tables.function_typedefs[tables.function_types[f]])
    } else {
        None
    }
}

/// The instruction that enters function `f`: through its slot for an imported
/// function, directly for one defined in the module.
pub open spec fn call_target(tables: TablesView, f: u32) -> Option<Instr> {
    if tables.ils.contains_key(f) {
        Some(Instr::CallSlot(tables.ils[f]))
    } else if tables.got.contains_key(f) {
        Some(Instr::Call(tables.got[f]))
    } else {
        None
    }
}

/// The pops that move `count` arguments from the stack to their registers:
/// the argument on top goes to the first register.
pub open spec fn arg_pops(count: int) -> Seq<Instr> {
    Seq::new(count as nat, |k: int| Instr::Pop(arg_reg(k)))
}

/// The pushes that put `count` results back on the stack.
pub open spec fn result_pushes(count: int) -> Seq<Instr> {
    if count <= 0 {
        Seq::empty()
    } else if count == 1 {
        seq![Instr::Push(Reg::Rax)]
    } else {
        seq![Instr::Push(Reg::Rdx), Instr::Push(Reg::Rax)]
    }
}

/// The code of a call of function `f`. A call is lowered where the function is
/// known, takes at most six parameters and gives at most two results, all of
/// them integers.
pub open spec fn call_spec(tables: TablesView, f: u32) -> Option<Seq<Instr>> {
    match (signature_of(tables, f), call_target(tables, f)) {
        (Some(sig), Some(target)) => if sig.params@.len() <= ARG_REGS && sig.results@.len() <= 2
            && all_integers(sig.params@) && all_integers(sig.results@) {
            Some(arg_pops(sig.params@.len() as int) + seq![target] + result_pushes(sig.results@.len() as int))
        } else {
            None
        },
        _ => None,
    }
}

/// Whether local `i` can be read and written: it exists, holds an integer and
/// lies within reach.
pub open spec fn local_usable(locals: Seq<Local>, i: u32) -> bool {
    i < locals.len() && locals[i as int].ty.is_integer() && locals[i as int].offset <= MAX_REACH
}

/// The displacement from `rbp` of local `i`.
pub open spec fn local_disp(locals: Seq<Local>, i: u32) -> i32 {
    (-(locals[i as int].offset as int)) as i32
}

/// The code of a binary operator: both operands leave the stack, the one on
/// top first, and the result of `top (op) next` takes their place.
pub open spec fn binary_spec(combine: Instr) -> Seq<Instr> {
    seq![Instr::Pop(Reg::Rax), Instr::Pop(Reg::Rcx), combine, Instr::Push(Reg::Rax)]
}

/// The code of one operator; `None` for an operator that is not lowered.
pub open spec fn lower_spec(tables: TablesView, locals: Seq<Local>, op: Op) -> Option<Seq<Instr>> {
    match op {
        Op::Nop => Some(Seq::empty()),
        Op::End => Some(Seq::empty()),
        Op::Drop => Some(seq![Instr::Pop(Reg::Rax)]),
        Op::I32Const(v) => Some(
            seq![Instr::MovImm { dst: Reg::Rax, value: (v as u32) as u64 }, Instr::Push(Reg::Rax)],
        ),
        Op::I64Const(v) => Some(
            seq![Instr::MovImm { dst: Reg::Rax, value: v as u64 }, Instr::Push(Reg::Rax)],
        ),
        Op::LocalGet(i) => if local_usable(locals, i) {
            Some(
                seq![
                    Instr::Load {
                        dst: Reg::Rax,
                        disp: local_disp(locals, i),
                        width: width_spec(locals[i as int].ty),
                    },
                    Instr::Push(Reg::Rax),
                ],
            )
        } else {
            None
        },
        Op::LocalSet(i) => if local_usable(locals, i) {
            Some(
                seq![
                    Instr::Pop(Reg::Rax),
                    Instr::Store {
                        disp: local_disp(locals, i),
                        src: Reg::Rax,
                        width: width_spec(locals[i as int].ty),
                    },
                ],
            )
        } else {
            None
        },
        Op::LocalTee(i) => if local_usable(locals, i) {
            Some(
                seq![
                    Instr::Pop(Reg::Rax),
                    Instr::Store {
                        disp: local_disp(locals, i),
                        src: Reg::Rax,
                        width: width_spec(locals[i as int].ty),
                    },
                    Instr::Push(Reg::Rax),
                ],
            )
        } else {
            None
        },
        Op::I32Add => Some(
            binary_spec(Instr::Add { dst: Reg::Rax, src: Reg::Rcx, width: Width::Dword }),
        ),
        Op::I32Sub => Some(
            binary_spec(Instr::Sub { dst: Reg::Rax, src: Reg::Rcx, width: Width::Dword }),
        ),
        Op::I64Add => Some(
            binary_spec(Instr::Add { dst: Reg::Rax, src: Reg::Rcx, width: Width::Qword }),
        ),
        Op::I64Sub => Some(
            binary_spec(Instr::Sub { dst: Reg::Rax, src: Reg::Rcx, width: Width::Qword }),
        ),
        Op::Call(f) => call_spec(tables, f),
        Op::Other => None,
    }
}

fn push_binary(program: &mut Vec<Instr>, combine: Instr)
    ensures
        final(program)@ == old(program)@ + binary_spec(combine),
{
    let ghost start = program@;
    program.push(Instr::Pop(Reg::Rax));
    program.push(Instr::Pop(Reg::Rcx));
    program.push(combine);
    program.push(Instr::Push(Reg::Rax));
    assert(program@ =~= start + binary_spec(combine));
}

fn push_call(program: &mut Vec<Instr>, tables: &Tables, f: u32) -> (r: Result<(), Error>)
    ensures
        match call_spec(tables@, f) {
            Some(code) => r is Ok && final(program)@ == old(program)@ + code,
            None => r is Err && r->Err_0 is Unsupported && final(program)@ == old(program)@,
        },
{
    let type_index: u32 = match tables.function_types.get(&f) {
        Some(t) => *t,
        None => {
            return Err(Error::Unsupported);
        },
    };
    let sig: &Signature = match tables.function_typedefs.get(&type_index) {
        Some(s) => s,
        None => {
            return Err(Error::Unsupported);
        },
    };
    let target: Instr = match tables.ils.get(&f) {
        Some(label) => Instr::CallSlot(*label),
        None => match tables.got.get(&f) {
            Some(label) => Instr::Call(*label),
            None => {
                return Err(Error::Unsupported);
            },
        },
    };
    assert(signature_of(tables@, f) == Some(*sig));
    assert(call_target(tables@, f) == Some(target));
    let n: usize = sig.params.len();
    let m: usize = sig.results.len();
    if n > ARG_REGS || m > 2 || !all_integer_types(&sig.params) || !all_integer_types(&sig.results) {
        return Err(Error::Unsupported);
    }
    let ghost start = program@;
    let mut k: usize = 0;
    while k < n
        invariant
            0 <= k <= n <= ARG_REGS,
            program@ == start + arg_pops(k as int),
        decreases n - k,
    {
        program.push(Instr::Pop(arg_register(k)));
        assert(program@ =~= start + arg_pops(k + 1));
        k = k + 1;
    }
    program.push(target);
    if m == 2 {
        program.push(Instr::Push(Reg::Rdx));
    }
    if m >= 1 {
        program.push(Instr::Push(Reg::Rax));
    }
    assert(program@ =~= start + (arg_pops(n as int) + seq![target] + result_pushes(m as int)));
    Ok(())
}

/// Appends to `program` the code of one operator. An operator that is not
/// lowered is refused, and `program` is then as it was.
pub fn handle_instruction(program: &mut Vec<Instr>, tables: &Tables, locals: &Vec<Local>, op: Op) -> (r: Result<(), Error>)
    ensures
        match lower_spec(tables@, locals@, op) {
            Some(code) => r is Ok && final(program)@ == old(program)@ + code,
            None => r is Err && r->Err_0 is Unsupported && final(program)@ == old(program)@,
        },
{
    let ghost start = program@;
    match op {
        Op::Nop => {
            assert(program@ =~= start + Seq::<Instr>::empty());
            Ok(())
        },
        Op::End => {
            assert(program@ =~= start + Seq::<Instr>::empty());
            Ok(())
        },
        Op::Drop => {
            program.push(Instr::Pop(Reg::Rax));
            assert(program@ =~= start + seq![Instr::Pop(Reg::Rax)]);
            Ok(())
        },
        Op::I32Const(v) => {
            let value: u64 = (v as u32) as u64;
            program.push(Instr::MovImm { dst: Reg::Rax, value });
            program.push(Instr::Push(Reg::Rax));
            assert(program@ =~= start + lower_spec(tables@, locals@, op)->Some_0);
            Ok(())
        },
        Op::I64Const(v) => {
            let value: u64 = v as u64;
            program.push(Instr::MovImm { dst: Reg::Rax, value });
            program.push(Instr::Push(Reg::Rax));
            assert(program@ =~= start + lower_spec(tables@, locals@, op)->Some_0);
            Ok(())
        },
        Op::LocalGet(i) => {
            match usable_local(locals, i) {
                Some((disp, width)) => {
                    program.push(Instr::Load { dst: Reg::Rax, disp, width });
                    program.push(Instr::Push(Reg::Rax));
                    assert(program@ =~= start + lower_spec(tables@, locals@, op)->Some_0);
                    Ok(())
                },
                None => Err(Error::Unsupported),
            }
        },
        Op::LocalSet(i) => {
            match usable_local(locals, i) {
                Some((disp, width)) => {
                    program.push(Instr::Pop(Reg::Rax));
                    program.push(Instr::Store { disp, src: Reg::Rax, width });
                    assert(program@ =~= start + lower_spec(tables@, locals@, op)->Some_0);
                    Ok(())
                },
                None => Err(Error::Unsupported),
            }
        },
        Op::LocalTee(i) => {
            match usable_local(locals, i) {
                Some((disp, width)) => {
                    program.push(Instr::Pop(Reg::Rax));
                    program.push(Instr::Store { disp, src: Reg::Rax, width });
                    program.push(Instr::Push(Reg::Rax));
                    assert(program@ =~= start + lower_spec(tables@, locals@, op)->Some_0);
                    Ok(())
                },
                None => Err(Error::Unsupported),
            }
        },
        Op::I32Add => {
            push_binary(program, Instr::Add { dst: Reg::Rax, src: Reg::Rcx, width: Width::Dword });
            Ok(())
        },
        Op::I32Sub => {
            push_binary(program, Instr::Sub { dst: Reg::Rax, src: Reg::Rcx, width: Width::Dword });
            Ok(())
        },
        Op::I64Add => {
            push_binary(program, Instr::Add { dst: Reg::Rax, src: Reg::Rcx, width: Width::Qword });
            Ok(())
        },
        Op::I64Sub => {
            push_binary(program, Instr::Sub { dst: Reg::Rax, src: Reg::Rcx, width: Width::Qword });
            Ok(())
        },
        Op::Call(f) => push_call(program, tables, f),
        Op::Other => Err(Error::Unsupported),
    }
}

/// The displacement and width of local `i`, where it can be read and written.
fn usable_local(locals: &Vec<Local>, i: u32) -> (r: Option<(i32, Width)>)
    ensures
        r is Some <==> local_usable(locals@, i),
        r is Some ==> r->Some_0 == (local_disp(locals@, i), width_spec(locals@[i as int].ty)),
{
    if (i as usize) < locals.len() {
        let local: Local = locals[i as usize];
        if is_integer(local.ty) && local.offset <= MAX_REACH {
            let disp: i32 = -(local.offset as i32);
            return Some((disp, width_of(local.ty)));
        }
    }
    None
}

} // verus!
