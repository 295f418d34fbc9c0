[package]
name = "rust_prelude_plus"
version = "0.1.0"
edition = "2021"
publish = false

[dependencies]
key-paths-core = "=1.7.0"
key-paths-derive = "=1.1.0"
rayon = "=1.12.0"
reqwest = { version = "=0.12.28", default-features = false, features = ["json"] }
serde = { version = "=1.0.229", features = ["derive"] }
serde_json = "=1.0.154"
thiserror = "=1.0.69"
tokio = { version = "=1.54.1", features = ["rt", "time"] }
