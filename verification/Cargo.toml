[package]
name = "foxyon"
version = "0.1.0"
edition = "2021"
publish = false

[dependencies]
blake3 = "*"
subtle = "*"
rand = "*"
moka = { version = "*", features = ["sync"] }
ahash = "*"
twox-hash = "*"
actix-web = "*"
tokio = { version = "*", features = ["macros", "rt-multi-thread", "sync", "time"] }
sysinfo = "*"
deadpool-redis = { version = "*", features = ["rt_tokio_1"] }
serde = { version = "*", features = ["derive"] }
toml = "*"
tracing = "*"
tracing-subscriber = "*"
