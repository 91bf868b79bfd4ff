[package]
name = "release_plz_core"
version = "0.1.0"
edition = "2021"
publish = false

[dependencies]
anyhow = "*"
cargo_metadata = "*"
cargo_utils = "*"
git-cliff-core = { version = "*", default-features = false }
git_cmd = "*"
next_version = "*"
rayon = "*"
tracing = "*"
tracing-subscriber = { version = "*", features = ["env-filter"] }
