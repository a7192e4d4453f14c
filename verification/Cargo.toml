[package]
name = "convergio_longrunning"
version = "0.4.5"
edition = "2021"
publish = false

[dependencies]
axum = "0.7"
chrono = "0.4"
convergio-db = "*"
convergio-ipc = "*"
convergio-types = "*"
r2d2 = "0.8"
rusqlite = { version = "*", features = ["bundled"] }
serde = { version = "1", features = ["derive"] }
serde_json = "1"
thiserror = "*"
tokio = { version = "1", features = ["rt", "time", "macros"] }
tracing = "0.1"
