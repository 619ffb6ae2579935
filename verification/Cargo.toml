[package]
name = "parawasm"
version = "0.1.0"
edition = "2021"
publish = false

[dependencies]
iced-x86 = { version = "1.17", features = ["code_asm"] }
wasmparser-nostd = "0.83"
byteorder = "1"
spin = "*"
x86 = "*"
buddy_system_allocator = "*"

[dev-dependencies]
wat = "1"
unicorn-engine = "*"
