[package]
name = "hyprsupreme_core"
version = "0.1.0"
edition = "2021"
publish = false

[dependencies]
semver = "1"
serde = { version = "1", features = ["derive"] }
serde_json = "1"
toml = "0.8"
clap = { version = "4", features = ["derive"] }
color-eyre = "0.6"
dirs = "5"
fs_extra = "1"
tracing = "0.1"
tracing-subscriber = "0.3"
walkdir = "2"
pyo3 = "0.20"

[dev-dependencies]
regex = "1"
