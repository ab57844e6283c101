[package]
name = "chipscraft"
version = "0.1.0"
edition = "2021"
publish = false

[dependencies]
async-trait = "=0.1.92"
chrono = "=0.4.45"
codepage-437 = "=0.1.0"
flate2 = "=1.1.10"
md5 = "=0.8.1"
rand = "=0.8.8"
reqwest = { version = "=0.13.5", default-features = false }
serde = "=1.0.229"
serde_derive = "=1.0.229"
serde_json = "=1.0.151"
tokio = { version = "=1.53.2", features = ["full"] }
urlencoding = "=2.1.3"
