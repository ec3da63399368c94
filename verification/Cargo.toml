[package]
name = "lance_conversion"
version = "0.1.1"
edition = "2021"
publish = false

[dependencies]
arrow-array = { version = "=60.1.0", features = ["ffi"] }
arrow-schema = { version = "=60.1.0", features = ["ffi"] }
async-trait = "=0.1.92"
bytes = "=1.12.1"
flate2 = "=1.1.10"
futures = "=0.3.34"
object_store = { version = "=0.14.2", default-features = false }
object_store_opendal = "=0.60.5"
opendal = { version = "=0.59.5", features = ["services-fs", "services-hf", "services-s3"] }
opendal-http-transport-reqwest = "=0.59.5"
parquet = { version = "=60.1.0", features = ["arrow", "async"] }
reqwest = { version = "=0.13.5", default-features = false }
serde_json = "=1.0.154"
thiserror = "=2.0.21"
tokio = { version = "=1.54.1", features = ["full"] }
tokio-util = { version = "=0.7.20", features = ["compat", "io-util"] }
url = "=2.5.8"
warc = { version = "=0.4.0", default-features = false }
