[package]
name = "v-connect-im"
version = "0.1.0"
edition = "2021"
publish = false

[dependencies]
actix-web = { version = "4", default-features = false }
anyhow = "=1.0.104"
async-trait = "=0.1.92"
chrono = { version = "=0.4.45", default-features = false, features = ["clock", "std"] }
clap = { version = "4", features = ["derive"] }
futures-util = "0.3"
parking_lot = "=0.12.5"
rand = "=0.8.8"
reqwest = { version = "*", default-features = false, features = ["json"] }
serde = { version = "=1.0.229", features = ["derive"] }
serde_json = "=1.0.154"
sha2 = "=0.10.9"
tokio = { version = "1", features = ["rt-multi-thread", "macros", "net", "time", "io-util", "sync"] }
tokio-tungstenite = "*"
tracing = "=0.1.44"
uuid = { version = "=1.29.0", features = ["v4"] }
