[package]
name = "databend_core"
version = "0.1.0"
edition = "2021"
publish = false

[dependencies]
arrow-ipc = { version = "=60.1.0", default-features = false }
arrow-schema = "=60.1.0"
async-backtrace = "=0.2.7"
async-trait = "=0.1.92"
base64 = { version = "=0.23.1", default-features = false, features = ["std"] }
log = "=0.4.35"
opendal = { version = "=0.39.0", default-features = false }
openraft = "=0.9.25"
parquet = { version = "=60.1.0", default-features = false, features = ["arrow"] }
serde = { version = "=1.0.229", features = ["derive"] }
