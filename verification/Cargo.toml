[package]
name = "ollama_model_viewer"
version = "0.1.0"
edition = "2021"
publish = false

[dependencies]
chrono = "*"
dirs = "*"
serde = { version = "*", features = ["derive"] }
serde_json = "*"
tokio = { version = "*", features = ["fs", "rt", "sync", "macros", "rt-multi-thread"] }
