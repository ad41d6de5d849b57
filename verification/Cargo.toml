[package]
name = "veridian_manager"
version = "0.1.0"
edition = "2021"
publish = false

[dependencies]
glob = "*"
sqlite = "*"
uuid = { version = "*", features = ["v4"] }
clap = { version = "*", features = ["derive"] }
directories = "*"
serde = { version = "*", features = ["derive"] }
toml = "*"
tokio = { version = "*", features = ["fs", "rt", "macros"] }
