[package]
name = "steam_command_runner"
version = "0.2.0"
edition = "2021"
publish = false

[dependencies]
shlex = "1"
clap = { version = "4", features = ["derive"] }
serde = { version = "1", features = ["derive"] }
toml = "0.8"
dirs = "5"
reqwest = { version = "0.12", default-features = false, features = ["blocking", "json", "rustls-tls"] }
