[package]
name = "memory-analyzer"
version = "0.1.0"
edition = "2021"
publish = false

[dependencies]
anyhow = "1"
aya = "=0.14.0"
aya-ebpf = "=0.1.1"
aya-log = "=0.3.0"
env_logger = "*"
libc = "0.2"
log = "0.4"
tokio = { version = "1", features = ["macros", "rt", "rt-multi-thread", "net", "signal", "time"] }
