[package]
name = "cutler"
version = "0.1.0"
edition = "2021"
publish = false

[dependencies]
anstyle = "*"
anyhow = "*"
async-trait = "*"
clap = { version = "4", features = ["derive"] }
clap_complete = "4"
defaults-rs = "*"
dirs = "*"
lazy_static = "*"
rayon = "*"
regex = "*"
reqwest = { version = "*", default-features = false }
semver = "*"
serde = { version = "1", features = ["derive"] }
serde_json = "1"
shell-words = "*"
tokio = { version = "1", features = ["full"] }
toml = "*"
toml_edit = "*"
ureq = { version = "*", default-features = false }
which = "*"
