[package]
name = "nicoad_list"
version = "0.1.0"
edition = "2021"
publish = false

[dependencies]
chrono = "*"
clap = { version = "*", features = ["derive"] }
reqwest = { version = "*", default-features = false, features = ["json"] }
serde = { version = "*", features = ["derive"] }
serde-xml-rs = "*"
tokio = { version = "*", features = ["macros", "rt-multi-thread"] }
