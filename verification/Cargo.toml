[package]
name = "cargo_release"
version = "0.1.0"
edition = "2021"
publish = false

[dependencies]
anstream = "=1.0.0"
anstyle = "=1.0.14"
anyhow = "=1.0.104"
cargo_metadata = "=0.23.1"
clap = { version = "=4.6.7", features = ["derive"] }
clap-cargo = { version = "=0.19.0", features = ["cargo_metadata"] }
globset = "=0.4.20"
indexmap = "=2.14.2"
log = "=0.4.34"
once_cell = "=1.21.4"
regex = "=1.13.1"
semver = "=1.0.28"
serde_json = "=1.0.154"
similar = "=3.2.1"
tame-index = { version = "=0.26.3", features = ["sparse"] }
time = { version = "=0.3.55", features = ["formatting", "macros"] }
