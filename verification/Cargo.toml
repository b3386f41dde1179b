[package]
name = "dotpatina"
version = "0.1.0"
edition = "2021"
publish = false

[dependencies]
clap = { version = "*", features = ["derive"] }
clap-verbosity-flag = "*"
colored = "*"
env_logger = "*"
handlebars = "*"
log = "*"
path-clean = "*"
serde_json = "*"
shellexpand = "*"
similar = "*"
toml = "*"
trash = "*"

[dev-dependencies]
dirs = "*"
