[package]
name = "reaper_theme_packer"
version = "0.1.0"
edition = "2021"
publish = false

[dependencies]
glob = "*"
serde_json = "*"
rust-ini = "*"
indent = "*"
relative-path = "*"
mlua = { version = "*", features = ["lua54", "vendored"] }
zip = { version = "*", default-features = false, features = ["deflate"] }
clap = { version = "*", features = ["derive"] }
log = "*"
env_logger = "*"
