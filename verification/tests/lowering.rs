use parawasm::error::Error;
use parawasm::frame::{emit_epilogue, emit_prologue, Frame, Local};
use parawasm::instr::{Instr, Reg, Width};
use parawasm::lower::{handle_instruction, Op, Tables};
use parawasm::types::{Signature, ValueType};
use std::collections::BTreeMap;

fn tables() -> Tables {
    let mut t = Tables {
        got: BTreeMap::new(),
        ils: BTreeMap::new(),
        function_types: BTreeMap::new(),
        function_typedefs: BTreeMap::new(),
    };
    // type 0: (i64, i32) -> i64; type 1: () -> (i64, i64); type 2: (f32) -> ()
    t.function_typedefs.insert(
        0,
        Signature { params: vec![ValueType::I64, ValueType::I32], results: vec![ValueType::I64] },
    );
    t.function_typedefs
        .insert(1, Signature { params: vec![], results: vec![ValueType::I64, ValueType::I64] });
    t.function_typedefs.insert(2, Signature { params: vec![ValueType::F32], results: vec![] });
    t.function_typedefs.insert(3, Signature { params: vec![ValueType::I64; 7], results: vec![] });
    // function 0 is imported, 1..4 are local
    t.ils.insert(0, 5);
    t.function_types.insert(0, 0);
    t.got.insert(1, 6);
    t.function_types.insert(1, 1);
    t.got.insert(2, 7);
    t.function_types.insert(2, 2);
    t.got.insert(3, 8);
    t.function_types.insert(3, 3);
    t.got.insert(4, 9);
    t.function_types.insert(4, 9);
    t
}

fn locals() -> Vec<Local> {
    vec![
        Local { offset: 8, ty: ValueType::I64 },
        Local { offset: 12, ty: ValueType::I32 },
        Local { offset: 16, ty: ValueType::F32 },
        Local { offset: 0x8000_0000, ty: ValueType::I64 },
    ]
}

fn lowered(op: Op) -> Result<Vec<Instr>, Error> {
    let mut program = vec![Instr::Ret];
    handle_instruction(&mut program, &tables(), &locals(), op)?;
    assert_eq!(program[0], Instr::Ret);
    Ok(program[1..].to_vec())
}

fn refused(op: Op) -> bool {
    let mut program = vec![Instr::Ret];
    let r = handle_instruction(&mut program, &tables(), &locals(), op);
    assert_eq!(program, vec![Instr::Ret]);
    matches!(r, Err(Error::Unsupported))
}

#[test]
fn constants_are_pushed_through_rax() {
    assert_eq!(
        lowered(Op::I64Const(-1)).unwrap(),
        vec![Instr::MovImm { dst: Reg::Rax, value: u64::MAX }, Instr::Push(Reg::Rax)]
    );
    assert_eq!(
        lowered(Op::I32Const(-1)).unwrap(),
        vec![Instr::MovImm { dst: Reg::Rax, value: 0xffff_ffff }, Instr::Push(Reg::Rax)]
    );
    assert_eq!(
        lowered(Op::I64Const(42)).unwrap(),
        vec![Instr::MovImm { dst: Reg::Rax, value: 42 }, Instr::Push(Reg::Rax)]
    );
}

#[test]
fn nop_and_end_emit_nothing() {
    assert_eq!(lowered(Op::Nop).unwrap(), vec![]);
    assert_eq!(lowered(Op::End).unwrap(), vec![]);
    assert_eq!(lowered(Op::Drop).unwrap(), vec![Instr::Pop(Reg::Rax)]);
}

#[test]
fn locals_are_reached_below_rbp() {
    assert_eq!(
        lowered(Op::LocalGet(0)).unwrap(),
        vec![Instr::Load { dst: Reg::Rax, disp: -8, width: Width::Qword }, Instr::Push(Reg::Rax)]
    );
    assert_eq!(
        lowered(Op::LocalGet(1)).unwrap(),
        vec![Instr::Load { dst: Reg::Rax, disp: -12, width: Width::Dword }, Instr::Push(Reg::Rax)]
    );
    assert_eq!(
        lowered(Op::LocalSet(1)).unwrap(),
        vec![Instr::Pop(Reg::Rax), Instr::Store { disp: -12, src: Reg::Rax, width: Width::Dword }]
    );
    assert_eq!(
        lowered(Op::LocalTee(0)).unwrap(),
        vec![
            Instr::Pop(Reg::Rax),
            Instr::Store { disp: -8, src: Reg::Rax, width: Width::Qword },
            Instr::Push(Reg::Rax)
        ]
    );
}

#[test]
fn unusable_locals_are_refused() {
    assert!(refused(Op::LocalGet(2)));
    assert!(refused(Op::LocalSet(3)));
    assert!(refused(Op::LocalTee(4)));
    assert!(refused(Op::Other));
}

#[test]
fn binary_operators_take_top_first() {
    let binary = |combine: Instr| {
        vec![Instr::Pop(Reg::Rax), Instr::Pop(Reg::Rcx), combine, Instr::Push(Reg::Rax)]
    };
    assert_eq!(
        lowered(Op::I64Sub).unwrap(),
        binary(Instr::Sub { dst: Reg::Rax, src: Reg::Rcx, width: Width::Qword })
    );
    assert_eq!(
        lowered(Op::I64Add).unwrap(),
        binary(Instr::Add { dst: Reg::Rax, src: Reg::Rcx, width: Width::Qword })
    );
    assert_eq!(
        lowered(Op::I32Sub).unwrap(),
        binary(Instr::Sub { dst: Reg::Rax, src: Reg::Rcx, width: Width::Dword })
    );
    assert_eq!(
        lowered(Op::I32Add).unwrap(),
        binary(Instr::Add { dst: Reg::Rax, src: Reg::Rcx, width: Width::Dword })
    );
}

#[test]
fn calls_go_through_slot_or_label() {
    assert_eq!(
        lowered(Op::Call(0)).unwrap(),
        vec![Instr::Pop(Reg::Rdi), Instr::Pop(Reg::Rsi), Instr::CallSlot(5), Instr::Push(Reg::Rax)]
    );
    assert_eq!(
        lowered(Op::Call(1)).unwrap(),
        vec![Instr::Call(6), Instr::Push(Reg::Rdx), Instr::Push(Reg::Rax)]
    );
}

#[test]
fn calls_outside_the_convention_are_refused() {
    assert!(refused(Op::Call(2))); // float parameter
    assert!(refused(Op::Call(3))); // seven parameters
    assert!(refused(Op::Call(4))); // signature unknown
    assert!(refused(Op::Call(5))); // function unknown
}

#[test]
fn encoding_sizes() {
    assert_eq!(ValueType::I32.encoding_size().unwrap(), 4);
    assert_eq!(ValueType::F32.encoding_size().unwrap(), 4);
    assert_eq!(ValueType::I64.encoding_size().unwrap(), 8);
    assert_eq!(ValueType::F64.encoding_size().unwrap(), 8);
    assert_eq!(ValueType::V128.encoding_size().unwrap(), 16);
    for ty in [
        ValueType::FuncRef,
        ValueType::ExternRef,
        ValueType::ExnRef,
        ValueType::Func,
        ValueType::EmptyBlockType,
    ] {
        assert!(matches!(ty.encoding_size(), Err(Error::UnsupportedType)));
    }
}

#[test]
fn frame_offsets_are_running_sums() {
    let mut frame = Frame::new();
    frame.extend(1, ValueType::I64).unwrap();
    frame.extend(2, ValueType::I32).unwrap();
    frame.extend(0, ValueType::V128).unwrap();
    frame.extend(1, ValueType::V128).unwrap();
    assert_eq!(frame.size(), 32);
    assert_eq!(
        frame.slots(),
        &vec![
            Local { offset: 8, ty: ValueType::I64 },
            Local { offset: 12, ty: ValueType::I32 },
            Local { offset: 16, ty: ValueType::I32 },
            Local { offset: 32, ty: ValueType::V128 },
        ]
    );
    assert!(matches!(frame.extend(1, ValueType::FuncRef), Err(Error::UnsupportedType)));
    assert!(matches!(frame.extend(u32::MAX, ValueType::I64), Err(Error::Unsupported)));
    assert_eq!(frame.size(), 32);
    assert_eq!(frame.slots().len(), 4);
}

#[test]
fn prologue_moves_parameters_from_the_last_register_back() {
    let params = vec![ValueType::I64, ValueType::I32];
    let mut frame = Frame::new();
    frame.extend(1, ValueType::I64).unwrap();
    frame.extend(1, ValueType::I32).unwrap();
    frame.extend(1, ValueType::I64).unwrap();
    let mut program = vec![];
    emit_prologue(&mut program, &params, &frame).unwrap();
    assert_eq!(
        program,
        vec![
            Instr::Push(Reg::Rbp),
            Instr::Mov { dst: Reg::Rbp, src: Reg::Rsp },
            Instr::SubImm { dst: Reg::Rsp, imm: 20 },
            Instr::Store { disp: -8, src: Reg::Rsi, width: Width::Qword },
            Instr::Store { disp: -12, src: Reg::Rdi, width: Width::Dword },
        ]
    );
}

#[test]
fn prologue_reads_further_parameters_above_the_frame() {
    let params = vec![
        ValueType::I64,
        ValueType::I64,
        ValueType::I64,
        ValueType::I64,
        ValueType::I64,
        ValueType::I64,
        ValueType::I32,
        ValueType::I64,
    ];
    let mut frame = Frame::new();
    for p in params.iter() {
        frame.extend(1, *p).unwrap();
    }
    let mut program = vec![];
    emit_prologue(&mut program, &params, &frame).unwrap();
    let store = |disp: i32, src: Reg, width: Width| Instr::Store { disp, src, width };
    assert_eq!(
        program,
        vec![
            Instr::Push(Reg::Rbp),
            Instr::Mov { dst: Reg::Rbp, src: Reg::Rsp },
            Instr::SubImm { dst: Reg::Rsp, imm: 60 },
            store(-8, Reg::R9, Width::Qword),
            store(-16, Reg::R8, Width::Qword),
            store(-24, Reg::Rcx, Width::Qword),
            store(-32, Reg::Rdx, Width::Qword),
            store(-40, Reg::Rsi, Width::Qword),
            store(-48, Reg::Rdi, Width::Qword),
            Instr::Load { dst: Reg::R11, disp: 8, width: Width::Dword },
            store(-52, Reg::R11, Width::Dword),
            Instr::Load { dst: Reg::R11, disp: 12, width: Width::Qword },
            store(-60, Reg::R11, Width::Qword),
        ]
    );
}

#[test]
fn prologue_without_locals_reserves_nothing() {
    let mut program = vec![Instr::Ret];
    emit_prologue(&mut program, &vec![], &Frame::new()).unwrap();
    assert_eq!(
        program,
        vec![Instr::Ret, Instr::Push(Reg::Rbp), Instr::Mov { dst: Reg::Rbp, src: Reg::Rsp }]
    );
}

#[test]
fn prologue_refuses_float_parameters() {
    let params = vec![ValueType::F64];
    let mut frame = Frame::new();
    frame.extend(1, ValueType::F64).unwrap();
    let mut program = vec![Instr::Ret];
    assert!(matches!(emit_prologue(&mut program, &params, &frame), Err(Error::Unsupported)));
    assert_eq!(program, vec![Instr::Ret]);
}

#[test]
fn epilogue_takes_at_most_two_results() {
    let tail = vec![Instr::Mov { dst: Reg::Rsp, src: Reg::Rbp }, Instr::Pop(Reg::Rbp), Instr::Ret];
    let run = |results: Vec<ValueType>, size: u32| {
        let mut program = vec![];
        emit_epilogue(&mut program, &results, size).map(|_| program)
    };
    assert_eq!(run(vec![], 0).unwrap(), tail);
    let mut one = vec![Instr::Pop(Reg::Rax), Instr::AddImm { dst: Reg::Rsp, imm: 16 }];
    one.extend(tail.clone());
    assert_eq!(run(vec![ValueType::I32], 16).unwrap(), one);
    let mut three = vec![Instr::Pop(Reg::Rax), Instr::Pop(Reg::Rdx)];
    three.extend(tail.clone());
    assert_eq!(run(vec![ValueType::I64, ValueType::I64, ValueType::I32], 0).unwrap(), three);
    assert!(matches!(run(vec![ValueType::I64, ValueType::F32], 0), Err(Error::Unsupported)));
}

#[test]
fn frame_of_parameters() {
    let frame = Frame::with_params(&vec![ValueType::I32, ValueType::I64, ValueType::F64]).unwrap();
    assert_eq!(frame.size(), 20);
    assert_eq!(
        frame.slots(),
        &vec![
            Local { offset: 4, ty: ValueType::I32 },
            Local { offset: 12, ty: ValueType::I64 },
            Local { offset: 20, ty: ValueType::F64 },
        ]
    );
    let empty = Frame::with_params(&vec![]).unwrap();
    assert_eq!(empty.size(), 0);
    assert!(empty.slots().is_empty());
    assert!(matches!(
        Frame::with_params(&vec![ValueType::I64, ValueType::ExternRef]),
        Err(Error::UnsupportedType)
    ));
}
