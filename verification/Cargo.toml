[package]
name = "opm"
version = "0.1.0"
edition = "2021"
publish = false

[dependencies]
deb-version = "=0.1.1"
solvent = "=0.8.3"
regex = "=1.13.1"
md5 = "=0.7.0"
sha1 = "=0.10.7"
sha2 = "=0.10.9"
flate2 = "=1.1.10"
xz2 = "=0.1.7"
ar = "=0.9.0"
tar = "=0.4.46"
anyhow = "=1.0.104"
clap = "=2.34.0"
indicatif = "0.18"
reqwest = { version = "=0.11.27", default-features = false, features = ["stream"] }
tokio = { version = "=1.54.1", features = ["rt-multi-thread", "macros", "fs", "io-util", "time"] }
futures = "=0.3.34"
futures-util = "=0.3.34"
async-recursion = "=1.2.0"
fs_extra = "=1.3.0"
serde = { version = "=1.0.229", features = ["derive"] }
serde_json = "=1.0.154"
