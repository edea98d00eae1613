[package]
name = "midi_voices"
version = "0.1.0"
edition = "2021"
publish = false

[dependencies]
midly = { version = "*", default-features = false, features = ["std"] }
indexmap = "*"
serde_json = "*"
regex = "*"
log = "*"
env_logger = "*"
