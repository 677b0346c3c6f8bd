[package]
name = "dotsync"
version = "0.4.0"
edition = "2021"
rust-version = "1.95"
publish = false

[dependencies]
async-trait = "0.1"
clap = { version = "4", features = ["derive"] }
gix = { version = "=0.80.0", default-features = false }
jj-lib = "=0.39.0"
kstring = "=2.0.2"
serde = { version = "1", features = ["derive"] }
serde_json = "1"
similar = "=2.7.0"
tokio = { version = "1", features = ["rt", "macros", "io-util"] }
toml = "=1.1.8"
toml_edit = "=0.25.17"
