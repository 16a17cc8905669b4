[package]
name = "aur_install"
version = "0.1.0"
edition = "2021"
publish = false

[dependencies]
alpm = "1.0"
alpm-utils = "0.6"
ansi_term = "=0.12.1"
anyhow = "=1.0.104"
aur-depends = "0.9"
indicatif = "=0.15.0"
raur = "=3.0.1"
raur-ext = "=2.0.2"
reqwest = { version = "=0.11.27", default-features = false, features = ["blocking"] }
srcinfo = "1"

[dev-dependencies]
serde_json = "1"
