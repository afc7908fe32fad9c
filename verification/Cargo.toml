[package]
name = "git_atomic"
version = "0.1.0"
edition = "2021"
publish = false

[dependencies]
globset = "*"
gix = "*"
figment = { version = "*", features = ["toml", "env"] }
serde = { version = "1", features = ["derive"] }
serde_json = "1"
toml = "*"
clap = { version = "4", features = ["derive"] }
owo-colors = "*"
schemars = "*"
