[package]
name = "proctime"
version = "0.1.0"
edition = "2021"
publish = false

[dependencies]
nix = { version = "=0.29.0", features = ["resource", "zerocopy"] }
wait4 = "*"
serde = { version = "*", features = ["derive"] }
