//! The instructions the compiler emits, as plain values.

use vstd::prelude::*;

verus! {

/// A 64-bit general purpose register, or its low half where an instruction
/// works on 32 bits.
#[derive(Clone, Copy, Debug, PartialEq, Eq, Structural)]
pub enum Reg {
    Rax,
    Rcx,
    Rdx,
    Rbx,
    Rsp,
    Rbp,
    Rsi,
    Rdi,
    R8,
    R9,
    R10,
    R11,
    R12,
    R13,
    R14,
    R15,
}

impl Reg {
    /// The number of the register in the machine's encoding.
    pub open spec fn number_spec(self) -> u32 {
        match self {
            Reg::Rax => 0,
            Reg::Rcx => 1,
            Reg::Rdx => 2,
            Reg::Rbx => 3,
            Reg::Rsp => 4,
            Reg::Rbp => 5,
            Reg::Rsi => 6,
            Reg::Rdi => 7,
            Reg::R8 => 8,
            Reg::R9 => 9,
            Reg::R10 => 10,
            Reg::R11 => 11,
            Reg::R12 => 12,
            Reg::R13 => 13,
            Reg::R14 => 14,
            Reg::R15 => 15,
        }
    }

    pub fn number(self) -> (n: u32)
        ensures
            n == self.number_spec(),
            n < 16,
            reg_numbered(n) == self,
    {
        proof {
            reveal(reg_numbered);
        }
        match self {
            Reg::Rax => 0,
            Reg::Rcx => 1,
            Reg::Rdx => 2,
            Reg::Rbx => 3,
            Reg::Rsp => 4,
            Reg::Rbp => 5,
            Reg::Rsi => 6,
            Reg::Rdi => 7,
            Reg::R8 => 8,
            Reg::R9 => 9,
            Reg::R10 => 10,
            Reg::R11 => 11,
            Reg::R12 => 12,
            Reg::R13 => 13,
            Reg::R14 => 14,
            Reg::R15 => 15,
        }
    }
}

/// The register with the number given; `r15` for any number past fifteen.
#[verifier::opaque]
pub open spec fn reg_numbered(n: u32) -> Reg {
    if n == 0 {
        Reg::Rax
    } else if n == 1 {
        Reg::Rcx
    } else if n == 2 {
        Reg::Rdx
    } else if n == 3 {
        Reg::Rbx
    } else if n == 4 {
        Reg::Rsp
    } else if n == 5 {
        Reg::Rbp
    } else if n == 6 {
        Reg::Rsi
    } else if n == 7 {
        Reg::Rdi
    } else if n == 8 {
        Reg::R8
    } else if n == 9 {
        Reg::R9
    } else if n == 10 {
        Reg::R10
    } else if n == 11 {
        Reg::R11
    } else if n == 12 {
        Reg::R12
    } else if n == 13 {
        Reg::R13
    } else if n == 14 {
        Reg::R14
    } else {
        Reg::R15
    }
}

/// How many bits of its operands an instruction works on.
#[derive(Clone, Copy, Debug, PartialEq, Eq, Structural)]
pub enum Width {
    Dword,
    Qword,
}

/// A marker for a place in the code. It is resolved to a byte offset when the
/// code is assembled.
pub type Label = usize;

/// One instruction. Displacements are relative to `rbp`.
#[derive(Clone, Copy, Debug, PartialEq, Eq, Structural)]
pub enum Instr {
    /// Eight bytes of data, little-endian.
    Dq(u64),
    /// `push r64`
    Push(Reg),
    /// `pop r64`
    Pop(Reg),
    /// `mov dst, src` between 64-bit registers
    Mov { dst: Reg, src: Reg },
    /// `mov dst, imm64`
    MovImm { dst: Reg, value: u64 },
    /// `mov dst, [rbp + disp]`
    Load { dst: Reg, disp: i32, width: Width },
    /// `mov [rbp + disp], src`
    Store { disp: i32, src: Reg, width: Width },
    /// `add dst, imm32` on 64 bits
    AddImm { dst: Reg, imm: u32 },
    /// `sub dst, imm32` on 64 bits
    SubImm { dst: Reg, imm: u32 },
    /// `add dst, src`
    Add { dst: Reg, src: Reg, width: Width },
    /// `sub dst, src`
    Sub { dst: Reg, src: Reg, width: Width },
    /// A near call to the place the label marks.
    Call(Label),
    /// A call to the address held in the eight bytes the label marks.
    CallSlot(Label),
    /// `ret`
    Ret,
}

/// One line of what is handed to the encoder. Places in the code are told
/// apart by numbers above zero.
pub enum Line {
    /// The place with the number given: a line of no bytes.
    Mark(u64),
    /// A near call to the place with the number given.
    Call(u64),
    /// A call to the address held in the eight bytes at the place with the
    /// number given.
    CallSlot(u64),
    /// Any other instruction.
    Code(Instr),
}

/// The number of the place that a label marks.
pub open spec fn place_of(label: Label) -> u64 {
    (label + 1) as u64
}

/// The line that stands for an instruction.
pub open spec fn line_of(instr: Instr) -> Line {
    match instr {
        Instr::Call(label) => Line::Call(place_of(label)),
        Instr::CallSlot(label) => Line::CallSlot(place_of(label)),
        _ => Line::Code(instr),
    }
}

} // verus!
