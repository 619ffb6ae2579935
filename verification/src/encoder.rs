//! The encoder: what the library calls in `iced_x86` to turn instructions into
//! bytes. Nothing here is proved; each item says what is taken on trust.

use crate::instr::{reg_numbered, Instr, Line, Width};
use iced_x86::code_asm::CodeAssembler;
use iced_x86::{BlockEncoderOptions, Code, IcedError, Instruction, MemoryOperand, Register};
use vstd::prelude::*;

verus! {

/// `iced_x86::code_asm::CodeAssembler`: collects instructions and encodes them.
#[verifier::external_type_specification]
#[verifier::external_body]
pub struct ExCodeAssembler(CodeAssembler);

/// `iced_x86::IcedError`: why the encoder refused something.
#[verifier::external_type_specification]
#[verifier::external_body]
pub struct ExIcedError(IcedError);

/// The instructions that an assembler holds, in the order they were added. An
/// instruction added with an address of its own is a place (`Line::Mark`);
/// calls name the place they go to.
pub uninterp spec fn listing(coder: CodeAssembler) -> Seq<Line>;

/// Whether the encoder takes a line when it is added: whether the
/// instruction can be made of its operands.
pub uninterp spec fn accepted(line: Line) -> bool;

/// What `CodeAssembler::assemble_options` makes of a listing in 64-bit mode at
/// address zero: the bytes, and for every line the offset of its first byte
/// (or the greatest number, for a line that the encoder wrote anew); `None`
/// where the encoder refuses the listing.
pub uninterp spec fn encoding(lines: Seq<Line>) -> Option<(Seq<u8>, Seq<u32>)>;

/// `CodeAssembler::new` for 64-bit code, which it takes: an assembler that
/// holds nothing.
#[verifier::external_body]
pub(crate) fn assembler_new() -> (r: Result<CodeAssembler, IcedError>)
    ensures
        r is Ok,
        listing(r->Ok_0) == Seq::<Line>::empty(),
{
    CodeAssembler::new(64)
}

/// Adds an instruction of no bytes (`Code::Zero_bytes`) whose address is
/// `place`, for calls to name.
#[verifier::external_body]
pub(crate) fn emit_mark(coder: &mut CodeAssembler, place: u64) -> (r: Result<(), IcedError>)
    requires
        place > 0,
    ensures
        r is Ok ==> listing(*final(coder)) == listing(*old(coder)).push(Line::Mark(place)),
        r is Ok == accepted(Line::Mark(place)),
{
    let mut mark = Instruction::with(Code::Zero_bytes);
    mark.set_ip(place);
    coder.add_instruction(mark)
}

/// `CodeAssembler::dq` with one value: adds eight bytes of data.
#[verifier::external_body]
pub(crate) fn emit_dq(coder: &mut CodeAssembler, value: u64) -> (r: Result<(), IcedError>)
    ensures
        r is Ok ==> listing(*final(coder)) == listing(*old(coder)).push(
            Line::Code(Instr::Dq(value)),
        ),
        r is Ok == accepted(
            Line::Code(Instr::Dq(value)),
        ),
{
    coder.dq(&[value])
}

/// Adds `push reg` (`Code::Push_r64`), `reg` by its number from `RAX`.
#[verifier::external_body]
pub(crate) fn emit_push(coder: &mut CodeAssembler, reg: u32) -> (r: Result<(), IcedError>)
    requires
        reg < 16,
    ensures
        r is Ok ==> listing(*final(coder)) == listing(*old(coder)).push(
            Line::Code(Instr::Push(reg_numbered(reg))),
        ),
        r is Ok == accepted(
            Line::Code(Instr::Push(reg_numbered(reg))),
        ),
{
    coder.add_instruction(Instruction::with1(Code::Push_r64, Register::RAX + reg)?)
}

/// Adds `pop reg` (`Code::Pop_r64`), `reg` by its number from `RAX`.
#[verifier::external_body]
pub(crate) fn emit_pop(coder: &mut CodeAssembler, reg: u32) -> (r: Result<(), IcedError>)
    requires
        reg < 16,
    ensures
        r is Ok ==> listing(*final(coder)) == listing(*old(coder)).push(
            Line::Code(Instr::Pop(reg_numbered(reg))),
        ),
        r is Ok == accepted(
            Line::Code(Instr::Pop(reg_numbered(reg))),
        ),
{
    coder.add_instruction(Instruction::with1(Code::Pop_r64, Register::RAX + reg)?)
}

/// Adds `mov dst, src` between 64-bit registers (`Code::Mov_rm64_r64`).
#[verifier::external_body]
pub(crate) fn emit_mov(coder: &mut CodeAssembler, dst: u32, src: u32) -> (r: Result<(), IcedError>)
    requires
        dst < 16,
        src < 16,
    ensures
        r is Ok ==> listing(*final(coder)) == listing(*old(coder)).push(
            Line::Code(Instr::Mov { dst: reg_numbered(dst), src: reg_numbered(src) }),
        ),
        r is Ok == accepted(
            Line::Code(Instr::Mov { dst: reg_numbered(dst), src: reg_numbered(src) }),
        ),
{
    let (dst, src) = (Register::RAX + dst, Register::RAX + src);
    coder.add_instruction(Instruction::with2(Code::Mov_rm64_r64, dst, src)?)
}

/// Adds `mov dst, imm64` (`Code::Mov_r64_imm64`).
#[verifier::external_body]
pub(crate) fn emit_mov_imm(coder: &mut CodeAssembler, dst: u32, value: u64) -> (r: Result<(), IcedError>)
    requires
        dst < 16,
    ensures
        r is Ok ==> listing(*final(coder)) == listing(*old(coder)).push(
            Line::Code(Instr::MovImm { dst: reg_numbered(dst), value }),
        ),
        r is Ok == accepted(
            Line::Code(Instr::MovImm { dst: reg_numbered(dst), value }),
        ),
{
    coder.add_instruction(Instruction::with2(Code::Mov_r64_imm64, Register::RAX + dst, value)?)
}

/// Adds `mov dst, qword [rbp + disp]` (`Code::Mov_r64_rm64`).
#[verifier::external_body]
pub(crate) fn emit_load64(coder: &mut CodeAssembler, dst: u32, disp: i32) -> (r: Result<(), IcedError>)
    requires
        dst < 16,
    ensures
        r is Ok ==> listing(*final(coder)) == listing(*old(coder)).push(
            Line::Code(Instr::Load { dst: reg_numbered(dst), disp, width: Width::Qword }),
        ),
        r is Ok == accepted(
            Line::Code(Instr::Load { dst: reg_numbered(dst), disp, width: Width::Qword }),
        ),
{
    let mem = MemoryOperand::with_base_displ(Register::RBP, disp as i64);
    coder.add_instruction(Instruction::with2(Code::Mov_r64_rm64, Register::RAX + dst, mem)?)
}

/// Adds `mov dst, dword [rbp + disp]` (`Code::Mov_r32_rm32`).
#[verifier::external_body]
pub(crate) fn emit_load32(coder: &mut CodeAssembler, dst: u32, disp: i32) -> (r: Result<(), IcedError>)
    requires
        dst < 16,
    ensures
        r is Ok ==> listing(*final(coder)) == listing(*old(coder)).push(
            Line::Code(Instr::Load { dst: reg_numbered(dst), disp, width: Width::Dword }),
        ),
        r is Ok == accepted(
            Line::Code(Instr::Load { dst: reg_numbered(dst), disp, width: Width::Dword }),
        ),
{
    let mem = MemoryOperand::with_base_displ(Register::RBP, disp as i64);
    coder.add_instruction(Instruction::with2(Code::Mov_r32_rm32, Register::EAX + dst, mem)?)
}

/// Adds `mov qword [rbp + disp], src` (`Code::Mov_rm64_r64`).
#[verifier::external_body]
pub(crate) fn emit_store64(coder: &mut CodeAssembler, disp: i32, src: u32) -> (r: Result<(), IcedError>)
    requires
        src < 16,
    ensures
        r is Ok ==> listing(*final(coder)) == listing(*old(coder)).push(
            Line::Code(Instr::Store { disp, src: reg_numbered(src), width: Width::Qword }),
        ),
        r is Ok == accepted(
            Line::Code(Instr::Store { disp, src: reg_numbered(src), width: Width::Qword }),
        ),
{
    let mem = MemoryOperand::with_base_displ(Register::RBP, disp as i64);
    coder.add_instruction(Instruction::with2(Code::Mov_rm64_r64, mem, Register::RAX + src)?)
}

/// Adds `mov dword [rbp + disp], src` (`Code::Mov_rm32_r32`).
#[verifier::external_body]
pub(crate) fn emit_store32(coder: &mut CodeAssembler, disp: i32, src: u32) -> (r: Result<(), IcedError>)
    requires
        src < 16,
    ensures
        r is Ok ==> listing(*final(coder)) == listing(*old(coder)).push(
            Line::Code(Instr::Store { disp, src: reg_numbered(src), width: Width::Dword }),
        ),
        r is Ok == accepted(
            Line::Code(Instr::Store { disp, src: reg_numbered(src), width: Width::Dword }),
        ),
{
    let mem = MemoryOperand::with_base_displ(Register::RBP, disp as i64);
    coder.add_instruction(Instruction::with2(Code::Mov_rm32_r32, mem, Register::EAX + src)?)
}

/// Adds `add dst, imm32` on 64 bits (`Code::Add_rm64_imm32`). The encoder
/// refuses an immediate that does not fit the instruction.
#[verifier::external_body]
pub(crate) fn emit_add_imm(coder: &mut CodeAssembler, dst: u32, imm: u32) -> (r: Result<(), IcedError>)
    requires
        dst < 16,
    ensures
        r is Ok ==> listing(*final(coder)) == listing(*old(coder)).push(
            Line::Code(Instr::AddImm { dst: reg_numbered(dst), imm }),
        ),
        r is Ok == accepted(
            Line::Code(Instr::AddImm { dst: reg_numbered(dst), imm }),
        ),
{
    coder.add_instruction(Instruction::with2(Code::Add_rm64_imm32, Register::RAX + dst, imm)?)
}

/// Adds `sub dst, imm32` on 64 bits (`Code::Sub_rm64_imm32`). The encoder
/// refuses an immediate that does not fit the instruction.
#[verifier::external_body]
pub(crate) fn emit_sub_imm(coder: &mut CodeAssembler, dst: u32, imm: u32) -> (r: Result<(), IcedError>)
    requires
        dst < 16,
    ensures
        r is Ok ==> listing(*final(coder)) == listing(*old(coder)).push(
            Line::Code(Instr::SubImm { dst: reg_numbered(dst), imm }),
        ),
        r is Ok == accepted(
            Line::Code(Instr::SubImm { dst: reg_numbered(dst), imm }),
        ),
{
    coder.add_instruction(Instruction::with2(Code::Sub_rm64_imm32, Register::RAX + dst, imm)?)
}

/// Adds `add dst, src` on 64 bits (`Code::Add_rm64_r64`).
#[verifier::external_body]
pub(crate) fn emit_add64(coder: &mut CodeAssembler, dst: u32, src: u32) -> (r: Result<(), IcedError>)
    requires
        dst < 16,
        src < 16,
    ensures
        r is Ok ==> listing(*final(coder)) == listing(*old(coder)).push(
            Line::Code(
                Instr::Add { dst: reg_numbered(dst), src: reg_numbered(src), width: Width::Qword },
            ),
        ),
        r is Ok == accepted(
            Line::Code(
                Instr::Add { dst: reg_numbered(dst), src: reg_numbered(src), width: Width::Qword },
            ),
        ),
{
    let (dst, src) = (Register::RAX + dst, Register::RAX + src);
    coder.add_instruction(Instruction::with2(Code::Add_rm64_r64, dst, src)?)
}

/// Adds `add dst, src` on 32 bits (`Code::Add_rm32_r32`).
#[verifier::external_body]
pub(crate) fn emit_add32(coder: &mut CodeAssembler, dst: u32, src: u32) -> (r: Result<(), IcedError>)
    requires
        dst < 16,
        src < 16,
    ensures
        r is Ok ==> listing(*final(coder)) == listing(*old(coder)).push(
            Line::Code(
                Instr::Add { dst: reg_numbered(dst), src: reg_numbered(src), width: Width::Dword },
            ),
        ),
        r is Ok == accepted(
            Line::Code(
                Instr::Add { dst: reg_numbered(dst), src: reg_numbered(src), width: Width::Dword },
            ),
        ),
{
    let (dst, src) = (Register::EAX + dst, Register::EAX + src);
    coder.add_instruction(Instruction::with2(Code::Add_rm32_r32, dst, src)?)
}

/// Adds `sub dst, src` on 64 bits (`Code::Sub_rm64_r64`).
#[verifier::external_body]
pub(crate) fn emit_sub64(coder: &mut CodeAssembler, dst: u32, src: u32) -> (r: Result<(), IcedError>)
    requires
        dst < 16,
        src < 16,
    ensures
        r is Ok ==> listing(*final(coder)) == listing(*old(coder)).push(
            Line::Code(
                Instr::Sub { dst: reg_numbered(dst), src: reg_numbered(src), width: Width::Qword },
            ),
        ),
        r is Ok == accepted(
            Line::Code(
                Instr::Sub { dst: reg_numbered(dst), src: reg_numbered(src), width: Width::Qword },
            ),
        ),
{
    let (dst, src) = (Register::RAX + dst, Register::RAX + src);
    coder.add_instruction(Instruction::with2(Code::Sub_rm64_r64, dst, src)?)
}

/// Adds `sub dst, src` on 32 bits (`Code::Sub_rm32_r32`).
#[verifier::external_body]
pub(crate) fn emit_sub32(coder: &mut CodeAssembler, dst: u32, src: u32) -> (r: Result<(), IcedError>)
    requires
        dst < 16,
        src < 16,
    ensures
        r is Ok ==> listing(*final(coder)) == listing(*old(coder)).push(
            Line::Code(
                Instr::Sub { dst: reg_numbered(dst), src: reg_numbered(src), width: Width::Dword },
            ),
        ),
        r is Ok == accepted(
            Line::Code(
                Instr::Sub { dst: reg_numbered(dst), src: reg_numbered(src), width: Width::Dword },
            ),
        ),
{
    let (dst, src) = (Register::EAX + dst, Register::EAX + src);
    coder.add_instruction(Instruction::with2(Code::Sub_rm32_r32, dst, src)?)
}

/// Adds a near call (`Code::Call_rel32_64`) to the place with the number
/// given.
#[verifier::external_body]
pub(crate) fn emit_call(coder: &mut CodeAssembler, place: u64) -> (r: Result<(), IcedError>)
    ensures
        r is Ok ==> listing(*final(coder)) == listing(*old(coder)).push(Line::Call(place)),
        r is Ok == accepted(Line::Call(place)),
{
    coder.add_instruction(Instruction::with_branch(Code::Call_rel32_64, place)?)
}

/// Adds a call (`Code::Call_rm64`) to the address held in the eight bytes at
/// the place with the number given, which the instruction names relative to
/// `rip`.
#[verifier::external_body]
pub(crate) fn emit_call_slot(coder: &mut CodeAssembler, place: u64) -> (r: Result<(), IcedError>)
    ensures
        r is Ok ==> listing(*final(coder)) == listing(*old(coder)).push(Line::CallSlot(place)),
        r is Ok == accepted(Line::CallSlot(place)),
{
    let mem = MemoryOperand::with_base_displ(Register::RIP, place as i64);
    coder.add_instruction(Instruction::with1(Code::Call_rm64, mem)?)
}

/// `CodeAssembler::ret`: adds `ret`.
#[verifier::external_body]
pub(crate) fn emit_ret(coder: &mut CodeAssembler) -> (r: Result<(), IcedError>)
    ensures
        r is Ok ==> listing(*final(coder)) == listing(*old(coder)).push(Line::Code(Instr::Ret)),
        r is Ok == accepted(Line::Code(Instr::Ret)),
{
    coder.ret()
}

/// `CodeAssembler::assemble_options` at address zero, asking for the offsets
/// of the instructions: the bytes of what the assembler holds and, for every
/// instruction, the offset of its first byte.
#[verifier::external_body]
pub(crate) fn assemble(coder: &mut CodeAssembler) -> (r: Result<(Vec<u8>, Vec<u32>), IcedError>)
    ensures
        match r {
            Ok(made) => encoding(listing(*old(coder))) == Some((made.0@, made.1@)),
            Err(_) => encoding(listing(*old(coder))) is None,
        },
{
    let options = BlockEncoderOptions::RETURN_NEW_INSTRUCTION_OFFSETS;
    let made = coder.assemble_options(0, options)?.inner;
    Ok((made.code_buffer, made.new_instruction_offsets))
}

} // verus!
