[package]
name = "note_embedding"
version = "0.1.0"
edition = "2021"
publish = false

[dependencies]
anyhow = "1"
axum = "=0.8.9"
clap = { version = "4", features = ["derive"] }
directories = "=6.0.0"
frankenstein = "0.28"
ipnet = "=2.12.2"
notify = "=8.2.1"
pulldown-cmark = "=0.12.2"
rand = "=0.8.8"
rusqlite = { version = "=0.32.1", features = ["bundled"] }
serde = { version = "1", features = ["derive"] }
serde_json = "=1.0.154"
tokio = { version = "1", features = ["rt-multi-thread", "macros", "net", "sync", "time"] }
toml = "=0.8.23"
ureq = "=2.12.1"
walkdir = "=2.5.0"
