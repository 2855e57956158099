[package]
name = "autosave"
version = "0.1.0"
edition = "2021"
publish = false

[dependencies]
git2 = { version = "=0.21.0", default-features = false }
serde = { version = "=1.0.229", features = ["derive"] }
serde_json = "=1.0.151"
clap = { version = "=4.6.7", features = ["derive"] }
notify = "=8.2.0"
libc = "=0.2.190"
nix = { version = "=0.31.3", features = ["signal", "process", "term", "fs"] }
tokio = { version = "=1.53.2", features = ["rt-multi-thread", "net", "io-util", "macros", "time", "sync"] }
axum = "=0.8.9"
daemonize = "=0.5.0"
anyhow = "=1.0.104"
