[package]
name = "git_account_switcher"
version = "0.1.0"
edition = "2021"
publish = false

[dependencies]
anstream = "*"
anstyle = "*"
anyhow = "*"
clap = { version = "*", features = ["derive"] }
dirs = "*"
serde = { version = "*", features = ["derive"] }
toml = "*"

[dev-dependencies]
tempfile = "*"
