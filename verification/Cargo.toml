[package]
name = "tinykernel"
version = "0.1.0"
edition = "2021"
publish = false

[dependencies]
heapless = "=0.9.3"
x86_64 = "=0.15.2"
pic8259 = "=0.11.0"
spin = "=0.12.3"
lazy_static = { version = "=1.5.1", features = ["spin_no_std"] }
limine = "=0.6.5"
