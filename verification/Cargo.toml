[package]
name = "binbased_tracing"
version = "0.1.0"
edition = "2021"
publish = false

[dependencies]
goblin = "*"
gimli = "*"
object = "*"
nix = { version = "*", features = ["ptrace", "signal", "process", "fs", "mman"] }
clap = { version = "*", features = ["derive"] }
serde = { version = "*", features = ["derive"] }
toml = "*"
serde_yaml = "*"
thiserror = "*"
