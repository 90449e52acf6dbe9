[package]
name = "json_path_like_value_retrieval"
version = "0.1.0"
edition = "2021"
publish = false

[dependencies]
serde_json = { version = "1", features = ["preserve_order"] }
itertools = "0.13"
thiserror = "1"
clap = { version = "4", features = ["derive"] }
tracing = "0.1"
tracing-error = "0.2"
tracing-subscriber = { version = "0.3", features = ["env-filter"] }
