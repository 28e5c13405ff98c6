[package]
name = "solstone_tmux"
version = "0.1.0"
edition = "2021"
publish = false

[dependencies]
futures-core = "0.3"
reqwest = { version = "0.12", default-features = false, features = ["multipart", "stream", "cookies"] }
rustix = { version = "1", features = ["fs", "system"] }
serde = { version = "1", features = ["derive"] }
serde_json = "1"
sha2 = "0.10"
time = { version = "0.3" }
tokio = { version = "1", features = ["rt", "rt-multi-thread", "macros", "sync", "time", "signal"] }
