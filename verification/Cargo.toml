[package]
name = "feco3"
version = "0.1.0"
edition = "2021"
publish = false

[dependencies]
arrow = { version = "*", default-features = false }
bytelines = { version = "2", default-features = false }
chrono = { version = "0.4", default-features = false, features = ["std"] }
clap = { version = "4", features = ["derive"] }
clap-verbosity-flag = "2"
csv = "1"
env_logger = "0.10"
lazy_static = "1"
log = "0.4"
parquet = { version = "*", default-features = false, features = ["arrow"] }
regex = "1"
serde_json = { version = "1", features = ["preserve_order"] }
thiserror = "1"
ureq = "2"
