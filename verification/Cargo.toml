[package]
name = "raamattu"
version = "0.1.0"
edition = "2021"
publish = false

[dependencies]
itertools = "0.13"
sqlx = { version = "0.8", default-features = false, features = ["sqlite", "runtime-tokio", "derive"] }
axum = "0.7"
askama = "0.12"
serde = { version = "1", features = ["derive"] }
serde_json = "1"
tokio = { version = "1", features = ["macros", "rt-multi-thread", "net"] }
tantivy = { version = "0.22", default-features = false }
