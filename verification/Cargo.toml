[package]
name = "init_static"
version = "0.1.0"
edition = "2021"
publish = false

[dependencies]
anyhow = "1"
futures-util = { version = "0.3", default-features = false, features = ["std"] }
linkme = "0.3"
proc-macro2 = "1"
quote = "1"
syn = { version = "2", features = ["full", "visit"] }

[dev-dependencies]
futures-executor = "0.3"
