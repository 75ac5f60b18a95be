[package]
name = "dsvchc"
version = "0.1.0"
edition = "2021"
publish = false

[dependencies]
serde = { version = "1", features = ["derive"] }
serde_json = { version = "1", features = ["raw_value"] }
serde_yaml = "0.9"
clap = { version = "4", features = ["derive"] }
dlopen = "0.1"
dlopen_derive = "0.1"
signal-hook = "0.3"
tiny_http = "0.12"
