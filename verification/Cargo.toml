[package]
name = "tonggeret"
version = "0.1.1"
edition = "2021"
publish = false

[dependencies]
actix-web = { version = "4", default-features = false }
arrow = { version = "56", default-features = false }
axum = "0.8"
chrono = { version = "0.4", default-features = false, features = ["clock", "std"] }
fjall = "2"
parquet = { version = "56", default-features = false, features = ["arrow", "zstd"] }
prometheus = { version = "0.14", default-features = false }
serde_json = "1"
thiserror = "2"
tokio = { version = "1", features = ["rt", "sync", "time"] }
tower = { version = "0.5", features = ["util"] }
tower-http = { version = "0.6", features = ["fs"] }
tracing = "0.1"
