[package]
name = "tagger"
version = "0.1.0"
edition = "2021"
publish = false

[dependencies]
anyhow = "=1.0.104"
clap = { version = "=4.6.7", features = ["derive"] }
console = "=0.16.6"
dialoguer = "=0.12.0"
git2 = { version = "=0.21.0", default-features = false }
strum = { version = "=0.28.0", features = ["derive"] }
substring = "=1.4.5"

[dev-dependencies]
semver = "=1.0.28"
