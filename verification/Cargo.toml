[package]
name = "sv39_kernel"
version = "0.1.0"
edition = "2021"
publish = false

[dependencies]
riscv = "=0.10.1"
buddy_system_allocator = "=0.13.0"

[dev-dependencies]
xmas-elf = "=0.7.0"
