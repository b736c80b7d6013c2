[package]
name = "phys_sandbox"
version = "0.1.0"
edition = "2021"
publish = false

[dependencies]
tokio = { version = "*", features = ["rt-multi-thread", "sync", "net", "macros", "time"] }
rapier3d = "*"
