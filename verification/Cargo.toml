[package]
name = "linux-audit-mcp"
version = "0.1.0"
edition = "2021"
publish = false

[dependencies]
anyhow = "=1.0.104"
clap = { version = "=4.6.7", features = ["derive"] }
rmcp = { version = "=3.8.0", features = ["server", "macros", "transport-io", "schemars"] }
serde = { version = "=1.0.229", features = ["derive"] }
serde_json = { version = "=1.0.154", features = ["float_roundtrip", "preserve_order"] }
tokio = { version = "=1.54.1", features = ["macros", "rt-multi-thread", "process", "time", "io-util", "io-std"] }
toml = "=1.1.8"
tracing = "=0.1.44"
tracing-subscriber = "=0.3.23"
