[package]
name = "surreal_branch"
version = "0.1.0"
edition = "2021"
publish = false

[dependencies]
anyhow = "1"
arbitrary = { version = "1", features = ["derive"] }
http = "1"
reblessive = { version = "*", features = ["tree"] }
revision = "*"
serde = { version = "1", features = ["derive"] }
storekey = "*"
