[package]
name = "messaging_kernel"
version = "0.1.0"
edition = "2021"
publish = false

[dependencies]
bytes = "=1.12.1"
crc32fast = "=1.5.4"
lz4_flex = "=0.11.6"
snap = "=1.1.2"
flate2 = "=1.1.10"
brotli = "=9.1.1"
lzma-rs = "=0.3.0"
zstd = "=0.13.4"
num_cpus = "=1.17.0"
tokio = { version = "=1.54.1", features = ["sync", "time", "rt", "macros", "io-util", "net"] }
serde = { version = "=1.0.229", features = ["derive"] }
bincode = "=1.3.3"
libc = "=0.2.191"
memmap2 = "0.9"
