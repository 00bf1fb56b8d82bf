[package]
name = "nvtrust"
version = "0.1.0"
edition = "2021"
publish = false

[dependencies]
anyhow = "1"
bitflags = "2"
clap = { version = "4", features = ["derive"] }
env_logger = "*"
log = "0.4"
nix = { version = "*", features = ["user"] }
rustix = { version = "*", features = ["fs", "mm"] }
x86 = "*"
