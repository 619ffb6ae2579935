use iced_x86::code_asm::{eax, rbp, rsp, CodeAssembler};
use iced_x86::{Code, Decoder, DecoderOptions, Instruction, OpKind, Register};
use parawasm::compiler::{Compiler, X86_64Compiler};
use parawasm::module::{AssembledModule, FunctionIdentifier};
use std::cell::RefCell;
use std::collections::BTreeMap;
use std::rc::Rc;

#[derive(Debug)]
enum EmulationError {
    OutOfMemory(u64),
    UnknownInstruction(Code, u64),
    FunctionNotFound,
    TooManySteps,
}

const MEMORY_BYTES: usize = 1024 * 1024;

/// A module placed in the emulator's memory.
struct Loaded {
    offset: u64,
    module: AssembledModule,
    executed_instructions: BTreeMap<usize, usize>,
}

impl Loaded {
    fn instruction_execution_count(&self, offset: usize) -> usize {
        self.executed_instructions.get(&offset).copied().unwrap_or(0)
    }

    fn offset(&self) -> u64 {
        self.offset
    }

    fn function_entry_point<I: FunctionIdentifier>(&self, identifier: I) -> Option<usize> {
        self.module.function_entry_point(identifier)
    }

    fn link_import(&mut self, module: &str, name: Option<&str>, addr: u64) {
        self.module.link_import(module, name, addr)
    }
}

/// A small x86-64 machine: sixteen registers and a flat memory, running the
/// instructions that compiled modules consist of.
struct Emulator {
    memory: Vec<u8>,
    registers: [u64; 16],
    module_offset: u64,
    trampoline_len: u64,
    trampoline_offset: u64,
    modules: Vec<Rc<RefCell<Loaded>>>,
}

fn number(register: Register) -> usize {
    register.full_register().number()
}

impl Emulator {
    fn new() -> Result<Self, EmulationError> {
        let mut assembler = CodeAssembler::new(64).expect("assembler");
        assembler.call(iced_x86::code_asm::r10).expect("call");
        assembler.nop().expect("nop");
        let trampoline = assembler.assemble(0).expect("trampoline");
        let mut memory = vec![0u8; MEMORY_BYTES];
        memory[..trampoline.len()].copy_from_slice(&trampoline);
        let mut registers = [0u64; 16];
        registers[number(Register::RSP)] = (MEMORY_BYTES - 8) as u64;
        Ok(Self {
            memory,
            registers,
            module_offset: trampoline.len() as u64,
            trampoline_len: trampoline.len() as u64,
            trampoline_offset: 0,
            modules: vec![],
        })
    }

    fn mem_write(&mut self, at: u64, bytes: &[u8]) -> Result<(), EmulationError> {
        let start = at as usize;
        let end = start.checked_add(bytes.len()).ok_or(EmulationError::OutOfMemory(at))?;
        if end > self.memory.len() {
            return Err(EmulationError::OutOfMemory(at));
        }
        self.memory[start..end].copy_from_slice(bytes);
        Ok(())
    }

    fn read(&self, at: u64, width: usize) -> Result<u64, EmulationError> {
        let start = at as usize;
        let end = start.checked_add(width).ok_or(EmulationError::OutOfMemory(at))?;
        if end > self.memory.len() {
            return Err(EmulationError::OutOfMemory(at));
        }
        let mut buf = [0u8; 8];
        buf[..width].copy_from_slice(&self.memory[start..end]);
        Ok(u64::from_le_bytes(buf))
    }

    fn write(&mut self, at: u64, width: usize, value: u64) -> Result<(), EmulationError> {
        self.mem_write(at, &value.to_le_bytes()[..width])
    }

    fn add_module(&mut self, module: AssembledModule) -> Result<Rc<RefCell<Loaded>>, EmulationError> {
        let code = module.binary().to_vec();
        self.mem_write(self.module_offset, &code)?;
        let loaded = Loaded { offset: self.module_offset, module, executed_instructions: BTreeMap::new() };
        self.module_offset += code.len() as u64;
        let loaded = Rc::new(RefCell::new(loaded));
        self.modules.push(loaded.clone());
        Ok(loaded)
    }

    fn add_memory(&mut self, mem: &[u8]) -> Result<u64, EmulationError> {
        let offset = self.module_offset;
        self.mem_write(offset, mem)?;
        self.module_offset += mem.len() as u64;
        Ok(offset)
    }

    fn push(&mut self, value: u64) -> Result<(), EmulationError> {
        let sp = self.registers[number(Register::RSP)].wrapping_sub(8);
        self.registers[number(Register::RSP)] = sp;
        self.write(sp, 8, value)
    }

    fn pop(&mut self) -> Result<u64, EmulationError> {
        let sp = self.registers[number(Register::RSP)];
        let value = self.read(sp, 8)?;
        self.registers[number(Register::RSP)] = sp.wrapping_add(8);
        Ok(value)
    }

    fn read_register(&self, register: Register) -> Result<u64, EmulationError> {
        Ok(self.registers[number(register)])
    }

    fn write_register(&mut self, register: Register, value: u64) -> Result<(), EmulationError> {
        self.registers[number(register)] = value;
        Ok(())
    }

    fn address(&self, instruction: &Instruction) -> u64 {
        if instruction.is_ip_rel_memory_operand() {
            instruction.ip_rel_memory_address()
        } else {
            self.registers[number(instruction.memory_base())]
                .wrapping_add(instruction.memory_displacement64())
        }
    }

    fn count(&mut self, addr: u64) {
        for candidate in self.modules.iter() {
            let mut loaded = candidate.borrow_mut();
            let begin = loaded.offset;
            let end = begin + loaded.module.binary().len() as u64;
            if addr >= begin && addr <= end {
                *loaded.executed_instructions.entry((addr - begin) as usize).or_insert(0) += 1;
                return;
            }
        }
    }

    fn step(&mut self, rip: u64) -> Result<u64, EmulationError> {
        let start = rip as usize;
        if start >= self.memory.len() {
            return Err(EmulationError::OutOfMemory(rip));
        }
        let end = (start + 15).min(self.memory.len());
        let window = self.memory[start..end].to_vec();
        let mut decoder = Decoder::with_ip(64, &window, rip, DecoderOptions::NONE);
        let i = decoder.decode();
        let next = i.next_ip();
        self.count(rip);
        match i.code() {
            Code::Nopd | Code::Nopw | Code::Nopq => Ok(next),
            Code::Push_r64 => {
                let value = self.registers[number(i.op0_register())];
                self.push(value)?;
                Ok(next)
            }
            Code::Pop_r64 => {
                let value = self.pop()?;
                self.registers[number(i.op0_register())] = value;
                Ok(next)
            }
            Code::Mov_rm64_r64 => {
                let value = self.registers[number(i.op1_register())];
                if i.op0_kind() == OpKind::Register {
                    self.registers[number(i.op0_register())] = value;
                } else {
                    let at = self.address(&i);
                    self.write(at, 8, value)?;
                }
                Ok(next)
            }
            Code::Mov_rm32_r32 => {
                let value = self.registers[number(i.op1_register())] & 0xffff_ffff;
                if i.op0_kind() == OpKind::Register {
                    self.registers[number(i.op0_register())] = value;
                } else {
                    let at = self.address(&i);
                    self.write(at, 4, value)?;
                }
                Ok(next)
            }
            Code::Mov_r64_rm64 => {
                let value = if i.op1_kind() == OpKind::Register {
                    self.registers[number(i.op1_register())]
                } else {
                    self.read(self.address(&i), 8)?
                };
                self.registers[number(i.op0_register())] = value;
                Ok(next)
            }
            Code::Mov_r32_rm32 => {
                let value = if i.op1_kind() == OpKind::Register {
                    self.registers[number(i.op1_register())] & 0xffff_ffff
                } else {
                    self.read(self.address(&i), 4)?
                };
                self.registers[number(i.op0_register())] = value;
                Ok(next)
            }
            Code::Mov_r64_imm64 => {
                self.registers[number(i.op0_register())] = i.immediate64();
                Ok(next)
            }
            Code::Mov_r32_imm32 => {
                self.registers[number(i.op0_register())] = i.immediate32() as u64;
                Ok(next)
            }
            Code::Add_rm64_imm32 => {
                let r = number(i.op0_register());
                self.registers[r] = self.registers[r].wrapping_add(i.immediate32to64() as u64);
                Ok(next)
            }
            Code::Sub_rm64_imm32 => {
                let r = number(i.op0_register());
                self.registers[r] = self.registers[r].wrapping_sub(i.immediate32to64() as u64);
                Ok(next)
            }
            Code::Add_rm64_r64 => {
                let (d, s) = (number(i.op0_register()), number(i.op1_register()));
                self.registers[d] = self.registers[d].wrapping_add(self.registers[s]);
                Ok(next)
            }
            Code::Sub_rm64_r64 => {
                let (d, s) = (number(i.op0_register()), number(i.op1_register()));
                self.registers[d] = self.registers[d].wrapping_sub(self.registers[s]);
                Ok(next)
            }
            Code::Add_rm32_r32 => {
                let (d, s) = (number(i.op0_register()), number(i.op1_register()));
                self.registers[d] =
                    (self.registers[d] as u32).wrapping_add(self.registers[s] as u32) as u64;
                Ok(next)
            }
            Code::Sub_rm32_r32 => {
                let (d, s) = (number(i.op0_register()), number(i.op1_register()));
                self.registers[d] =
                    (self.registers[d] as u32).wrapping_sub(self.registers[s] as u32) as u64;
                Ok(next)
            }
            Code::Call_rel32_64 => {
                self.push(next)?;
                Ok(i.near_branch64())
            }
            Code::Call_rm64 => {
                let target = if i.op0_kind() == OpKind::Register {
                    self.registers[number(i.op0_register())]
                } else {
                    self.read(self.address(&i), 8)?
                };
                self.push(next)?;
                Ok(target)
            }
            Code::Retnq => self.pop(),
            other => Err(EmulationError::UnknownInstruction(other, rip)),
        }
    }

    fn call_function<I: FunctionIdentifier>(
        &mut self,
        module: Rc<RefCell<Loaded>>,
        identifier: I,
    ) -> Result<(), EmulationError> {
        let function_offset = module
            .borrow()
            .module
            .function_entry_point(identifier)
            .ok_or(EmulationError::FunctionNotFound)? as u64;
        let module_offset = module.borrow().offset;
        for loaded in self.modules.clone() {
            let code = loaded.borrow().module.binary().to_vec();
            let at = loaded.borrow().offset;
            self.mem_write(at, &code)?;
        }
        self.registers[number(Register::R10)] = module_offset + function_offset;
        let until = self.trampoline_offset + self.trampoline_len;
        let mut rip = self.trampoline_offset;
        let mut steps = 0usize;
        while rip != until {
            steps += 1;
            if steps > 100_000 {
                return Err(EmulationError::TooManySteps);
            }
            rip = self.step(rip)?;
        }
        Ok(())
    }
}

fn compiled(src: &str) -> AssembledModule {
    let binary = wat::parse_str(src).expect("binary module");
    X86_64Compiler::default().compile(&binary).expect("compiled module")
}

#[test]
fn return_value() {
    let src = r#"
(module

    (func (export "foo") (result i64)
     i64.const 42
    )
)
"#;
    let binary = wat::parse_str(src).expect("binary module");
    let module = X86_64Compiler::default()
        .compile(&binary)
        .expect("compiled module");

    let mut emulator = Emulator::new().expect("emulator");
    let emu_mod = emulator.add_module(module).expect("module addition");
    emulator
        .call_function(emu_mod.clone(), "foo")
        .expect("call");

    assert_eq!(emulator.read_register(Register::RAX).unwrap(), 42);
}

#[test]
fn passing_args_and_return_value() {
    let src = r#"
(module

    (func (export "foo") (param i64) (param i64) (result i64)
     local.get 0
     local.get 1
     i64.sub
    )
)
"#;
    let binary = wat::parse_str(src).expect("binary module");
    let module = X86_64Compiler::default()
        .compile(&binary)
        .expect("compiled module");

    let mut emulator = Emulator::new().expect("emulator");
    let emu_mod = emulator.add_module(module).expect("module addition");

    emulator.write_register(Register::RDI, 52).expect("1st arg");
    emulator.write_register(Register::RSI, 10).expect("2nd arg");

    emulator
        .call_function(emu_mod.clone(), "foo")
        .expect("call");

    assert_eq!(emulator.read_register(Register::RAX).unwrap(), 42);
}

#[test]
fn local_call() {
    let src = r#"
(module

    (func (export "bar")
        call $foo
    )
    
    (func $foo
       call $foo1)
       
    (func $foo1)
    
    (func $unused)
)
"#;
    let binary = wat::parse_str(src).expect("binary module");
    let module = X86_64Compiler::default()
        .compile(&binary)
        .expect("compiled module");

    let mut emulator = Emulator::new().expect("emulator");
    let emu_mod = emulator.add_module(module).expect("module addition");
    emulator
        .call_function(emu_mod.clone(), "bar")
        .expect("call");

    assert_eq!(
        emu_mod
            .borrow()
            .instruction_execution_count(emu_mod.borrow().function_entry_point("bar").unwrap_or(0)),
        1
    );

    assert_eq!(
        emu_mod
            .borrow()
            .instruction_execution_count(emu_mod.borrow().function_entry_point(1).unwrap_or(0)),
        1
    );

    assert_eq!(
        emu_mod
            .borrow()
            .instruction_execution_count(emu_mod.borrow().function_entry_point(2).unwrap_or(0)),
        1
    );

    assert_eq!(
        emu_mod
            .borrow()
            .instruction_execution_count(emu_mod.borrow().function_entry_point(3).unwrap_or(0)),
        0
    );
}

#[test]
fn imported_wasm_call() {
    let foo_src = r#"
(module

    (func $bar (import "b" "bar"))

    (func (export "foo")
        call $bar
    )
)
"#;
    let foo_binary = wat::parse_str(foo_src).expect("binary module");
    let foo_module = X86_64Compiler::default()
        .compile(&foo_binary)
        .expect("compiled module");

    let bar_src = r#"
(module
    (func (export "bar"))
)
"#;

    let bar_binary = wat::parse_str(bar_src).expect("binary module");
    let bar_module = X86_64Compiler::default()
        .compile(&bar_binary)
        .expect("compiled module");

    let mut emulator = Emulator::new().expect("emulator");
    let mod_foo = emulator.add_module(foo_module).expect("module addition");
    let mod_bar = emulator.add_module(bar_module).expect("module addition");

    let bar_module_offset = mod_bar.borrow().offset();
    let bar_function_offset =
        bar_module_offset + (mod_bar.borrow().function_entry_point("bar").unwrap() as u64);

    mod_foo
        .try_borrow_mut()
        .unwrap()
        .link_import("b", Some("bar"), bar_function_offset);

    emulator
        .call_function(mod_foo.clone(), "foo")
        .expect("call");

    assert_eq!(
        mod_foo
            .borrow()
            .instruction_execution_count(mod_foo.borrow().function_entry_point("foo").unwrap_or(0)),
        1
    );

    assert_eq!(
        mod_bar
            .borrow()
            .instruction_execution_count(mod_bar.borrow().function_entry_point("bar").unwrap_or(0)),
        1
    );
}

#[test]
fn external_call() {
    let foo_src = r#"
(module

    (func $bar (import "b" "bar") (result i64))

    (func (export "foo") (result i64)
        call $bar
    )
)
"#;
    let foo_binary = wat::parse_str(foo_src).expect("binary module");
    let foo_module = X86_64Compiler::default()
        .compile(&foo_binary)
        .expect("compiled module");

    let mut emulator = Emulator::new().expect("emulator");
    let mod_foo = emulator.add_module(foo_module).expect("module addition");

    let mut assembler = CodeAssembler::new(64).expect("new assembler");
    assembler.push(rbp).expect("asm");
    assembler.mov(rbp, rsp).expect("asm");
    assembler.mov(eax, 42).expect("asm");
    assembler.pop(rbp).expect("asm");
    assembler.ret().expect("asm");
    let assembled = assembler.assemble(0).expect("asm");
    let bar_fun = emulator.add_memory(&assembled).expect("bar function");

    mod_foo
        .try_borrow_mut()
        .unwrap()
        .link_import("b", Some("bar"), bar_fun);

    emulator
        .call_function(mod_foo.clone(), "foo")
        .expect("call");

    assert_eq!(emulator.read_register(Register::RAX).unwrap(), 42);
}

#[test]
fn locals_basic() {
    let foo_src = r#"
(module

    (func (export "foo") (result i64) (local i64) (local i64)
      i64.const 10
      local.set 0
      i64.const 32
      local.set 1
      local.get 0
      local.get 1
      i64.add
    )
)
"#;
    let foo_binary = wat::parse_str(foo_src).expect("binary module");
    let foo_module = X86_64Compiler::default()
        .compile(&foo_binary)
        .expect("compiled module");

    let mut emulator = Emulator::new().expect("emulator");
    let emu_mod = emulator.add_module(foo_module).expect("module addition");

    emulator
        .call_function(emu_mod.clone(), "foo")
        .expect("call");

    assert_eq!(emulator.read_register(Register::RAX).unwrap(), 42);
}

#[test]
fn stack_survives_a_call() {
    let mut emulator = Emulator::new().expect("emulator");
    let module = emulator
        .add_module(compiled("(module (func (export \"f\") (result i64) i64.const 7))"))
        .expect("module addition");
    emulator.push(99).expect("push");
    emulator.call_function(module, "f").expect("call");
    assert_eq!(emulator.read_register(Register::RAX).unwrap(), 7);
    assert_eq!(emulator.pop().unwrap(), 99);
}

#[test]
fn thirty_two_bit_arithmetic_wraps() {
    let mut emulator = Emulator::new().expect("emulator");
    let module = emulator
        .add_module(compiled(
            "(module (func (export \"f\") (param i32 i32) (result i32) local.get 0 local.get 1 i32.add))",
        ))
        .expect("module addition");
    emulator.write_register(Register::RDI, 0xffff_ffff).unwrap();
    emulator.write_register(Register::RSI, 2).unwrap();
    emulator.call_function(module, "f").expect("call");
    assert_eq!(emulator.read_register(Register::RAX).unwrap(), 1);
}

#[test]
fn call_passes_arguments_and_results() {
    let mut emulator = Emulator::new().expect("emulator");
    let module = emulator
        .add_module(compiled(
            r#"(module
                (func $sub (param i64 i64) (result i64) local.get 0 local.get 1 i64.sub)
                (func (export "f") (param i64 i64) (result i64)
                    local.get 0 local.get 1 call $sub (local.tee 0) drop local.get 0))"#,
        ))
        .expect("module addition");
    emulator.write_register(Register::RDI, 52).unwrap();
    emulator.write_register(Register::RSI, 10).unwrap();
    emulator.call_function(module, "f").expect("call");
    assert_eq!(emulator.read_register(Register::RAX).unwrap(), 42);
}

#[test]
fn two_results_come_back_in_rax_and_rdx() {
    let mut emulator = Emulator::new().expect("emulator");
    let module = emulator
        .add_module(compiled(
            "(module (func (export \"f\") (result i64 i64) i64.const 1 i64.const 2))",
        ))
        .expect("module addition");
    emulator.call_function(module, "f").expect("call");
    assert_eq!(emulator.read_register(Register::RAX).unwrap(), 2);
    assert_eq!(emulator.read_register(Register::RDX).unwrap(), 1);
}

#[test]
fn unknown_function_is_not_found() {
    let mut emulator = Emulator::new().expect("emulator");
    let module = emulator
        .add_module(compiled("(module (func (export \"f\")))"))
        .expect("module addition");
    assert!(matches!(
        emulator.call_function(module, "g"),
        Err(EmulationError::FunctionNotFound)
    ));
}
