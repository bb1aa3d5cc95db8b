[package]
name = "gust"
version = "0.1.0"
edition = "2021"
publish = false

[dependencies]
blake3 = "1"
semver = "1"
pubgrub = "*"
zstd = "0.13"
tar = "0.4"
serde = { version = "1", features = ["derive"] }
serde_json = "1"
toml = "*"
glob = "0.3"
clap = { version = "4", features = ["derive"] }
tokio = { version = "1", features = ["full"] }
futures = "0.3"
rayon = "1"
memmap2 = "0.9"
reqwest = { version = "*", features = ["json"] }
miette = { version = "*", features = ["fancy"] }
thiserror = "*"
tracing = "0.1"
tracing-subscriber = "0.3"
indicatif = "*"
console = "*"
directories = "*"
dirs = "*"
which = "*"
flate2 = "1"
tempfile = "3"
