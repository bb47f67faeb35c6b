[package]
name = "vmb"
version = "0.3.0"
edition = "2021"
publish = false

[dependencies]
anyhow = "=1.0.104"
clap = { version = "=4.6.7", features = ["derive", "cargo"] }
console = "=0.16.6"
ctrlc = "=3.5.2"
directories = "=6.0.0"
getset = "=0.1.7"
git2 = { version = "=0.21.0", default-features = false }
indicatif = "=0.18.6"
notify = "=8.2.1"
regex = "=1.13.1"
semver = { version = "=1.0.28", features = ["serde"] }
serde = { version = "=1.0.229", features = ["derive"] }
tempfile = "=3.27.0"
time = "=0.3.55"
toml = "=1.1.8"
walkdir = "=2.5.0"
zip = { version = "=9.2.2", default-features = false, features = ["deflate"] }
