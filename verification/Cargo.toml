[package]
name = "kernel"
version = "0.1.0"
edition = "2021"
publish = false

[dependencies]
bitflags = "=2.13.2"
bytemuck = "=1.25.2"
goblin = { version = "=0.10.7", default-features = false, features = ["elf32", "elf64"] }
heapless = "=0.9.3"
riscv = "=0.16.1"
