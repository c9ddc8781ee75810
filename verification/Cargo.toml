[package]
name = "viewfmt"
version = "0.1.0"
edition = "2021"
publish = false

[dependencies]
anyhow = "=1.0.104"
clap = { version = "=4.6.7", features = ["derive"] }
console = "=0.15.11"
glob = "=0.3.4"
proc-macro2 = { version = "=1.0.107", features = ["span-locations"] }
quote = "=1.0.47"
rayon = "=1.12.0"
rstml = "=0.12.1"
rustywind_core = "=0.7.0"
serde = { version = "=1.0.229", features = ["derive"] }
similar = "=2.7.0"
syn = { version = "=2.0.119", features = ["full", "visit", "extra-traits"] }
thiserror = "=1.0.69"
toml = "=1.1.6"
