[package]
name = "jjunction"
version = "0.1.0"
edition = "2021"
publish = false

[dependencies]
clap = { version = "=4.6.7", features = ["derive"] }
dirs = "=6.0.0"
gix = { version = "=0.87.1", default-features = false, features = ["sha1", "sha256"] }
indicatif = "=0.18.6"
jj-lib = "=0.45.1"
pollster = "=0.4.0"
serde = { version = "=1.0.229", features = ["derive"] }
toml_edit = "=0.25.17"

[dev-dependencies]
tempfile = "=3.27.0"
