[package]
name = "turbohex"
version = "0.1.0"
edition = "2021"
publish = false

[dependencies]
anyhow = "1"
chrono = { version = "0.4", default-features = false, features = ["alloc"] }
clap = { version = "4", features = ["derive"] }
crossterm = "0.28"
memmap2 = "0.9"
mlua = { version = "0.10", features = ["lua54", "vendored"] }
ratatui = "0.29"
wasmtime = { version = "29", default-features = false, features = ["cranelift", "runtime", "std"] }
