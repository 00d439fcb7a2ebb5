[package]
name = "wpipe"
version = "0.1.0"
edition = "2021"
publish = false

[dependencies]
nix = { version = "0.27", features = ["fs", "dir"] }
uuid = { version = "1", features = ["v4"] }
sha256 = "1"
tokio = { version = "1", features = ["process", "rt", "rt-multi-thread"] }
