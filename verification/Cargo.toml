[package]
name = "acyclic"
version = "0.1.0"
edition = "2021"
publish = false

[dependencies]
blake3 = { version = "=1.8.7", default-features = false, features = ["std"] }
clap = { version = "4", default-features = false, features = ["std", "derive", "env", "help", "usage"] }
hex = "=0.4.3"
libc = "0.2"
rmcp = { version = "1", default-features = false, features = ["server", "macros", "transport-io"] }
rusqlite = { version = "0.37", features = ["bundled"] }
schemars = "1"
serde = { version = "1", features = ["derive"] }
serde_json = "=1.0.154"
thiserror = "2"
tokio = { version = "1", default-features = false, features = ["rt-multi-thread", "net", "io-util", "io-std", "sync", "time", "process", "macros", "signal"] }
toml = "=0.9.12"
