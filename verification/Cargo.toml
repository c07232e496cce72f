[package]
name = "morningstar"
version = "0.1.0"
edition = "2021"
publish = false

[dependencies]
chrono = "*"
chrono-tz = "*"
multimap = "*"
serde = { version = "*", features = ["derive"] }
serde_json = "*"
ron = "*"
tokio = { version = "*", features = ["macros", "rt-multi-thread", "process", "sync", "time"] }
reqwest = { version = "*", default-features = false }
