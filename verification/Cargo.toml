[package]
name = "wty"
version = "0.1.0"
edition = "2021"
publish = false

[dependencies]
anyhow = "*"
chrono = "*"
flate2 = "*"
indexmap = "*"
rayon = "*"
rkyv = "*"
rusqlite = "*"
serde = { version = "*", features = ["derive"] }
serde_json = "*"
tracing = "*"
tracing-subscriber = { version = "*", features = ["env-filter", "chrono"] }
ureq = "*"
