[package]
name = "wps_mcp_rust"
version = "0.1.0"
edition = "2021"
publish = false

[dependencies]
anyhow = "=1.0.104"
calamine = "0.30"
cfb = "=0.10.0"
encoding_rs = "=0.8.44"
quick-xml = "=0.37.5"
rmcp = { version = "=0.8.5", features = ["server", "transport-io", "macros"] }
serde = { version = "=1.0.229", features = ["derive"] }
serde_json = "=1.0.154"
thiserror = "=2.0.21"
tokio = { version = "=1.54.1", features = ["macros", "rt-multi-thread", "io-std"] }
tracing-subscriber = { version = "=0.3.23", features = ["env-filter"] }
umya-spreadsheet = "=2.3.3"
zip = { version = "=2.6.1", default-features = false, features = ["deflate"] }

[dev-dependencies]
tempfile = "=3.27.0"
