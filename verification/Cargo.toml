[package]
name = "lxtrace"
version = "0.1.0"
edition = "2021"
publish = false

[dependencies]
anyhow = "=1.0.104"
cpp_demangle = "=0.5.1"
crossbeam = "=0.8.5"
libc = "=0.2.190"
nix = { version = "=0.31.3", features = ["process", "ptrace", "signal", "socket", "uio"] }
rand = "=0.10.3"
rstack = "=0.3.3"
rustc-demangle = "=0.1.28"
serde = { version = "=1.0.229", features = ["derive"] }
serde_json = "=1.0.151"
structopt = "=0.3.26"
