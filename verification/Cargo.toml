[package]
name = "tors"
version = "0.1.0"
edition = "2021"
publish = false

[dependencies]
clap = "4"
colored = "*"
reqwest = { version = "0.12", default-features = false, features = ["json"] }
serde = { version = "1", features = ["derive"] }
serde_json = "1"
tokio = { version = "1", features = ["macros", "rt-multi-thread"] }
