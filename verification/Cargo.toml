[package]
name = "libmuse"
version = "0.1.0"
edition = "2021"
publish = false

[dependencies]
semver = "*"
base64 = "*"
bytes = "*"
clap = { version = "*", features = ["derive"] }
octocrab = "*"
reqwest = { version = "*", default-features = false }
serde = { version = "*", features = ["derive"] }
tempfile = "*"
tokio = { version = "*", features = ["macros", "rt-multi-thread"] }
toml = "*"
walkdir = "*"
zip = { version = "*", default-features = false, features = ["deflate"] }
