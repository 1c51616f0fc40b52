[package]
name = "nanohue"
version = "0.1.0"
edition = "2021"
publish = false

[dependencies]
log = "*"
reqwest = { version = "*", default-features = false, features = ["json", "rustls-tls"] }
serde = { version = "*", features = ["derive"] }
serde_json = "*"
serde_yaml = "*"
simplelog = "*"
tokio = { version = "*", features = ["macros", "rt-multi-thread", "time"] }
