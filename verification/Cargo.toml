[package]
name = "strip_ansi"
version = "0.5.0"
edition = "2021"
publish = false

[dependencies]
memchr = "2"
smallvec = "1"
serde = { version = "1", features = ["derive"] }
toml = "*"
thiserror = "2"
clap = { version = "4", features = ["derive"] }
supports-color = "*"
sigpipe = "*"
