[package]
name = "buck2"
version = "0.1.0"
edition = "2021"
publish = false

[dependencies]
anyhow = "1"
chrono = "0.4"
clap = { version = "4", features = ["derive"] }
constant_time_eq = "0.2"
dashmap = "5"
elf = "0.7"
flatbuffers = "24"
futures = "0.3"
indexmap = "2"
prost = "0.12"
prost-types = "0.12"
rand = { version = "0.8", features = ["small_rng"] }
rustc-hash = "1"
serde = { version = "1", features = ["derive"] }
serde_json = "1"
smallvec = "1"
thiserror = "1"
tokio = { version = "1", features = ["full"] }
tokio-stream = "0.1"
tonic = "0.10"
tracing = "0.1"
tracing-subscriber = { version = "0.3", features = ["env-filter", "json"] }
zstd = "0.13"
