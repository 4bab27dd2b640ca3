[package]
name = "sedona_core"
version = "0.1.0"
edition = "2021"
publish = false

[dependencies]
arrow = { version = "=59.3.2", default-features = false, features = ["ipc"] }
arrow-array = "=59.3.2"
arrow-schema = "=59.3.2"
datafusion-common = { version = "=55.2.0", default-features = false }
datafusion-execution = { version = "=55.2.0", default-features = false }
datafusion-expr = { version = "=55.2.0", default-features = false }
datafusion-physical-plan = "=55.2.0"
geo-traits = "=0.3.0"
libc = "=0.2.191"
object_store = { version = "=0.14.2", features = ["aws", "azure", "gcp", "http"] }
serde_json = "=1.0.154"
tokio = { version = "=1.54.1", features = ["rt-multi-thread"] }
url = "=2.5.8"
wkb = "=0.9.3"
zarrs = { version = "=0.23.14", features = ["async"] }
zarrs_filesystem = "=0.3.14"
zarrs_object_store = "=0.7.0"
