[package]
name = "chickenscratch_core"
version = "0.1.0"
edition = "2021"
publish = false

[dependencies]
uuid = { version = "=1.29.0", features = ["v4"] }
chrono = "=0.4.45"
regex = "=1.13.1"
serde = { version = "=1.0.229", features = ["derive"] }
serde_yaml = "=0.9.34"
serde_json = "=1.0.154"
quick-xml = { version = "=0.42.0", features = ["serialize"] }
clap = { version = "=4.6.7", features = ["derive"] }
tempfile = "=3.27.0"
git2 = { version = "=0.21.0", default-features = false }
libc = "=0.2.191"
