[package]
name = "nps"
version = "0.1.0"
edition = "2021"
publish = false

[dependencies]
clap = { version = "4", features = ["derive", "env"] }
env_logger = "*"
grep = "*"
home = "*"
log = "*"
regex = "*"
serde_json = "*"
tempfile = "*"
termcolor = "*"
