[package]
name = "systems_toolkit"
version = "0.1.0"
edition = "2021"
publish = false

[dependencies]
clap = { version = "4", features = ["derive"] }
http = "0.2"
log = "0.4"
nix = { version = "0.27", features = ["process", "ptrace", "signal"] }
pretty_env_logger = "0.5"
rand = "0.8"
rustyline = "12"
tokio = { version = "1", features = ["full"] }
