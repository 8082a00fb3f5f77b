[package]
name = "mapack"
version = "0.1.0"
edition = "2021"
publish = false

[dependencies]
protobuf = "=3.7.2"
tokio = { version = "=1.54.1", default-features = false, features = ["fs", "io-util"] }
log = "=0.4.34"
syn = { version = "=2.0.119", default-features = false, features = ["parsing", "derive", "printing", "clone-impls"] }
quote = { version = "=1.0.47", default-features = false }
