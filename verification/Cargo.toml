[package]
name = "rseq_tools"
version = "0.1.0"
edition = "2021"
publish = false

[dependencies]
ariadne = "0.5"
clap = { version = "4", features = ["derive"] }
lsp-types = "0.97"
serde = { version = "1", features = ["derive"] }
serde_json = "1"
serialport = { version = "4", default-features = false }
