[package]
name = "sbbf_rs"
version = "0.1.0"
edition = "2021"
publish = false

[dependencies]
cpufeatures = "0.2"
fastrange-rs = "*"

[dev-dependencies]
parquet2 = { version = "0.17", default-features = false, features = ["bloom_filter"] }
rand = "0.8"
xxhash-rust = { version = "0.8", features = ["xxh3"] }
