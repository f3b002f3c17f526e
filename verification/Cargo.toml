[package]
name = "wicrs_server"
version = "0.1.0"
edition = "2021"
publish = false

[dependencies]
actix = "=0.13.5"
actix-web = { version = "=4.18.1", default-features = false, features = ["macros", "ws"] }
actix-web-actors = "=4.3.1"
base64 = "=0.13.1"
bincode = "=1.3.3"
futures = "=0.3.34"
lazy_static = "=1.5.1"
oauth2 = { version = "=5.0.0", default-features = false, features = ["reqwest"] }
parse-display = "=0.11.0"
rand = "=0.8.8"
reqwest = { version = "=0.12.28", default-features = false, features = ["json"] }
serde = { version = "=1.0.229", features = ["derive"] }
serde_json = "=1.0.154"
sha2 = "=0.10.9"
sha3 = "=0.10.9"
tantivy = "=0.27.0"
tokio = { version = "=1.54.1", features = ["fs", "io-util", "macros", "rt-multi-thread", "sync", "time"] }
uuid = { version = "=1.29.0", features = ["serde", "v4"] }
warp = { version = "=0.4.3", default-features = false, features = ["server"] }

[dev-dependencies]
tempfile = "=3.27.0"
