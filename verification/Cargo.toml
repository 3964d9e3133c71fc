[package]
name = "rust_os"
version = "0.1.0"
edition = "2021"
publish = false

[dependencies]
crossbeam-queue = "0.3"
font8x8 = "0.3"
pc-keyboard = "0.7"
xmas-elf = "0.9"
chrono = { version = "0.4", default-features = false }
conquer-once = "0.4"
futures-util = "0.3"
lazy_static = "1.4"
log = "0.4"
spin = "0.9"
spinning_top = "0.3"
uefi = "0.26"
