//! Ahead-of-time compilation of WebAssembly modules to position-independent
//! x86-64 machine code, with the tables a host needs to enter the compiled
//! functions and to resolve their imports.
//!
//! [`compiler`] walks a module; [`session`] holds what is emitted and known so
//! far; [`frame`] and [`lower`] decide the instructions; [`optimizer`] cleans
//! them up; [`assemble`] has them encoded; [`module`] is what comes out.
//! [`wasm`], [`encoder`] and [`endian`] hold what is called in other crates,
//! and [`bootboot`] reads the memory map a kernel is started with.

pub mod assemble;
pub mod bootboot;
pub mod compiler;
pub mod encoder;
pub mod endian;
pub mod error;
pub mod frame;
pub mod instr;
pub mod lower;
pub mod module;
pub mod optimizer;
pub mod session;
pub mod types;
pub mod wasm;
