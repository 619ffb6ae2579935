use parawasm::assemble::assemble_program;
use parawasm::error::Error;
use parawasm::instr::{Instr, Reg, Width};

#[test]
fn labels_get_the_offsets_of_their_instructions() {
    let program = vec![Instr::Dq(0x0102030405060708), Instr::Push(Reg::Rbp), Instr::Ret];
    let table = vec![(1, 0), (2, 2), (3, 1)];
    let assembly = assemble_program(&program, &table, 4).unwrap();
    assert_eq!(assembly.bytes, vec![8, 7, 6, 5, 4, 3, 2, 1, 0x55, 0xC3]);
    assert_eq!(assembly.offsets, vec![Some(8), None, Some(9), None]);
}

#[test]
fn every_instruction_has_its_encoding() {
    let encode = |i: Instr| assemble_program(&vec![i], &vec![], 0).unwrap().bytes;
    assert_eq!(encode(Instr::Push(Reg::Rax)), vec![0x50]);
    assert_eq!(encode(Instr::Push(Reg::R9)), vec![0x41, 0x51]);
    assert_eq!(encode(Instr::Pop(Reg::Rdi)), vec![0x5F]);
    assert_eq!(encode(Instr::Mov { dst: Reg::Rbp, src: Reg::Rsp }), vec![0x48, 0x89, 0xE5]);
    assert_eq!(
        encode(Instr::MovImm { dst: Reg::Rax, value: 42 }),
        vec![0x48, 0xB8, 42, 0, 0, 0, 0, 0, 0, 0]
    );
    assert_eq!(
        encode(Instr::Load { dst: Reg::Rax, disp: -8, width: Width::Qword }),
        vec![0x48, 0x8B, 0x45, 0xF8]
    );
    assert_eq!(
        encode(Instr::Load { dst: Reg::Rax, disp: -4, width: Width::Dword }),
        vec![0x8B, 0x45, 0xFC]
    );
    assert_eq!(
        encode(Instr::Store { disp: -8, src: Reg::Rdi, width: Width::Qword }),
        vec![0x48, 0x89, 0x7D, 0xF8]
    );
    assert_eq!(
        encode(Instr::Store { disp: -4, src: Reg::Rsi, width: Width::Dword }),
        vec![0x89, 0x75, 0xFC]
    );
    assert_eq!(
        encode(Instr::SubImm { dst: Reg::Rsp, imm: 16 }),
        vec![0x48, 0x81, 0xEC, 16, 0, 0, 0]
    );
    assert_eq!(
        encode(Instr::AddImm { dst: Reg::Rsp, imm: 16 }),
        vec![0x48, 0x81, 0xC4, 16, 0, 0, 0]
    );
    assert_eq!(
        encode(Instr::Add { dst: Reg::Rax, src: Reg::Rcx, width: Width::Qword }),
        vec![0x48, 0x01, 0xC8]
    );
    assert_eq!(
        encode(Instr::Sub { dst: Reg::Rax, src: Reg::Rcx, width: Width::Qword }),
        vec![0x48, 0x29, 0xC8]
    );
    assert_eq!(
        encode(Instr::Add { dst: Reg::Rax, src: Reg::Rcx, width: Width::Dword }),
        vec![0x01, 0xC8]
    );
    assert_eq!(
        encode(Instr::Sub { dst: Reg::Rax, src: Reg::Rcx, width: Width::Dword }),
        vec![0x29, 0xC8]
    );
    assert_eq!(encode(Instr::Ret), vec![0xC3]);
    assert_eq!(encode(Instr::Dq(0)), vec![0; 8]);
}

#[test]
fn calls_reach_their_labels() {
    // call L0; ret; L0: ret
    let program = vec![Instr::Call(0), Instr::Ret, Instr::Ret];
    let assembly = assemble_program(&program, &vec![(2, 0)], 1).unwrap();
    assert_eq!(assembly.bytes, vec![0xE8, 1, 0, 0, 0, 0xC3, 0xC3]);
    assert_eq!(assembly.offsets, vec![Some(6)]);
    // L0: dq; call [L0]
    let program = vec![Instr::Dq(0), Instr::CallSlot(0)];
    let assembly = assemble_program(&program, &vec![(0, 0)], 1).unwrap();
    assert_eq!(&assembly.bytes[8..], &[0xFF, 0x15, 0xF2, 0xFF, 0xFF, 0xFF]);
    assert_eq!(assembly.offsets, vec![Some(0)]);
}

#[test]
fn unknown_labels_are_inconsistent() {
    assert!(matches!(
        assemble_program(&vec![Instr::Call(3)], &vec![], 3),
        Err(Error::Inconsistent)
    ));
    assert!(matches!(
        assemble_program(&vec![Instr::Ret], &vec![(0, 1)], 1),
        Err(Error::Inconsistent)
    ));
}

#[test]
fn encoder_refusals_are_assembler_errors() {
    // one label placed twice
    assert!(matches!(
        assemble_program(&vec![Instr::Ret], &vec![(0, 0), (0, 0)], 1),
        Err(Error::AssemblerError(_))
    ));
    // an immediate that does not fit the instruction
    assert!(matches!(
        assemble_program(&vec![Instr::SubImm { dst: Reg::Rsp, imm: 0x8000_0000 }], &vec![], 0),
        Err(Error::AssemblerError(_))
    ));
}

#[test]
fn empty_program_gives_no_bytes() {
    let assembly = assemble_program(&vec![], &vec![(0, 0)], 1).unwrap();
    assert_eq!(assembly.bytes, vec![]);
    assert_eq!(assembly.offsets, vec![None]);
}

#[test]
fn places_follow_the_order_of_the_table() {
    // two labels on one instruction, one on the next
    let program = vec![Instr::Ret, Instr::Ret];
    let assembly = assemble_program(&program, &vec![(1, 2), (0, 1), (0, 0)], 3).unwrap();
    assert_eq!(assembly.bytes, vec![0xC3, 0xC3]);
    assert_eq!(assembly.offsets, vec![Some(0), Some(0), Some(1)]);
}
