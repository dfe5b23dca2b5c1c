[package]
name = "cosmoline"
version = "0.1.0"
edition = "2021"
publish = false

[dependencies]
chrono = "0.4"
clap = "2"
env_logger = "0.9"
handlebars = "4"
log = "0.4"
rustc-demangle = "0.1"
semver = "1"
serde = { version = "1", features = ["derive"] }
serde_json = "1"
