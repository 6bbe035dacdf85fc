[package]
name = "github_vanity"
version = "0.1.0"
edition = "2021"
publish = false

[dependencies]
anyhow = "1"
chrono = "0.4"
clap = "2"
fastrand = "1"
git2 = { version = "0.13", default-features = false }
toml = "0.5"
