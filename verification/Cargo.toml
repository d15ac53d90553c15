[package]
name = "pistonite-cu"
version = "0.1.0"
edition = "2021"
publish = false

[dependencies]
glob = "0.3"
smallvec = "1"
terminal_size = "0.4"
unicode-width = "0.2"
pathdiff = "0.2"
dunce = "1"
regex = "1"
shell-words = "1"
serde = { version = "1", features = ["derive"] }
serde_json = "1"
serde_yaml_ng = "0.10"
toml = "0.8"
log = "0.4"
env_filter = "0.1"
clap = { version = "4", features = ["derive"] }
anyhow = "1"
oneshot = "0.1"
tokio = { version = "1", features = ["full"] }
spin = "0.9"
syn = { version = "2", features = ["full"] }
quote = "1"
proc-macro2 = "1"
