[package]
name = "git_stats"
version = "0.1.0"
edition = "2021"

[dependencies]
git2 = { version = "*", default-features = false }

[dev-dependencies]
tempfile = "3"
