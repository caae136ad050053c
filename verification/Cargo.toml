[package]
name = "sway-tab"
version = "0.1.0"
edition = "2021"
publish = false

[dependencies]
anyhow = "1"
futures-lite = "*"
signal-hook = "*"
swayipc = "*"
swayipc-async = "*"
tokio = { version = "1", features = ["macros", "rt-multi-thread", "signal", "sync", "time"] }
