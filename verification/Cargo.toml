[package]
name = "soar"
version = "0.1.0"
edition = "2021"
publish = false

[dependencies]
anyhow = "*"
backhand = "*"
blake3 = "*"
chrono = "*"
clap = { version = "*", features = ["derive"] }
console = "*"
futures = "*"
indicatif = "*"
nix = { version = "*", features = ["user"] }
nu-ansi-term = "*"
reqwest = { version = "*", default-features = false }
rmp-serde = "*"
rusqlite = "*"
serde = { version = "*", features = ["derive"] }
serde_json = "*"
soar-dl = "*"
squishy = "*"
tokio = { version = "*", features = ["full"] }
tracing = "*"
xattr = "*"
