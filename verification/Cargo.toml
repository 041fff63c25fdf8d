[package]
name = "polybot"
version = "0.1.0"
edition = "2021"
publish = false

[dependencies]
alloy = { version = "1", default-features = false, features = ["signer-local"] }
anyhow = "1"
dotenvy = "0.15"
futures-util = { version = "0.3", default-features = false, features = ["sink", "std"] }
reqwest = { version = "=0.12.28", default-features = false, features = ["json", "rustls-tls"] }
rust_decimal = { version = "=1.43.0", default-features = false, features = ["std"] }
rustls = { version = "0.23", default-features = false, features = ["ring", "std"] }
serde = { version = "1", features = ["derive"] }
serde_json = "=1.0.154"
tokio = { version = "1", features = ["rt-multi-thread", "macros", "sync", "time", "net"] }
tokio-tungstenite = { version = "0.26", features = ["rustls-tls-webpki-roots"] }
tracing = "0.1"
tracing-subscriber = { version = "0.3", default-features = false, features = ["env-filter", "fmt"] }
uuid = "=1.29.0"
