[package]
name = "tael-server"
version = "0.1.0"
edition = "2021"
publish = false

[dependencies]
anyhow = "=1.0.104"
axum = "=0.8.9"
chitchat = "=0.13.0"
chrono = { version = "=0.4.45", features = ["serde"] }
flate2 = "=1.1.10"
form_urlencoded = "=1.2.2"
hex = "=0.4.3"
opentelemetry-proto = { version = "=0.33.1", default-features = false, features = ["gen-tonic", "trace", "metrics", "logs"] }
prost = "=0.14.4"
rand = "=0.8.8"
regex = "=1.13.1"
reqwest = { version = "=0.13.5", default-features = false, features = ["json"] }
rmp-serde = "=1.3.1"
rmpv = "=1.3.1"
rskafka = { version = "=0.6.0", default-features = false }
serde = { version = "=1.0.229", features = ["derive"] }
serde_json = "=1.0.154"
sha2 = "=0.10.9"
snap = "=1.1.2"
tokio = { version = "=1.54.1", features = ["fs", "io-util", "macros", "net", "process", "rt-multi-thread", "signal", "sync", "time"] }
tokio-stream = { version = "=0.1.19", features = ["sync"] }
toml = "=1.1.8"
tonic = "=0.14.9"
tracing = "=0.1.44"
tracing-subscriber = { version = "=0.3.23", features = ["env-filter"] }
walrus-rust = "=0.2.0"
