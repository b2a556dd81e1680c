[package]
name = "kare_core"
version = "0.1.0"
edition = "2021"
publish = false

[dependencies]
quick-xml = "*"
rusqlite = { version = "*", features = ["bundled"] }
time = { version = "*", features = ["formatting", "parsing"] }
toml = "*"
serde = { version = "*", features = ["derive"] }
clap = { version = "*", features = ["derive"] }
anyhow = "*"
thiserror = "*"
