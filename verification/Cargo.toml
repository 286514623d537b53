[package]
name = "cytrus"
version = "0.1.0"
edition = "2021"
publish = false

[dependencies]
sha1_smol = "1"
serde = { version = "1", features = ["derive"] }
reqwest = { version = "0.12", default-features = false, features = ["json"] }
tokio = { version = "1", features = ["rt-multi-thread", "macros"] }
futures-util = "0.3"
