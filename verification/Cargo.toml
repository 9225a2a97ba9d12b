[package]
name = "captrack"
version = "0.1.0"
edition = "2021"
publish = false

[dependencies]
sha2 = "=0.10.9"
fastrand = "=2.5.0"
anyhow = "=1.0.104"
clap = { version = "=4.6.7", features = ["derive"] }
serde = { version = "=1.0.229", features = ["derive"] }
serde_json = "=1.0.154"
syn = { version = "=2.0.119", features = ["full", "visit", "extra-traits"] }
proc-macro2 = { version = "=1.0.107", features = ["span-locations"] }
glob = "=0.3.4"
ignore = "=0.4.34"
tempfile = "=3.27.0"
toml_edit = "=0.25.17"
indexmap = "=2.14.2"
bytes = "1"
dashmap = "6"
scc = "2"

[dev-dependencies]
fxhash = "0.2"
