[package]
name = "tycho"
version = "0.1.0"
edition = "2021"
publish = false

[dependencies]
clap = { version = "4", features = ["derive"] }
clap_complete = "4"
globset = "0.4"
jiff = "0.2"
serde = { version = "1", features = ["derive"] }
thiserror = "2"
toml = "*"
toml_edit = "*"
unicode-normalization = "0.1"

[dev-dependencies]
tempfile = "3"
