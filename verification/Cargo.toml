[package]
name = "git2ipfs"
version = "0.1.0"
edition = "2021"
publish = false

[dependencies]
bytes = "=1.12.1"
clap = "=2.34.0"
exitcode = "=1.1.2"
flate2 = "=1.1.10"
futures = "=0.3.34"
git2 = { version = "=0.14.4", default-features = false }
hyper = { version = "=0.14.32", features = ["client", "http1", "tcp"] }
indicatif = "0.17"
ipfs-api = { version = "=0.11.0", default-features = false, features = ["with-hyper"] }
itertools = "=0.10.5"
rand = "=0.8.8"
rand_chacha = "=0.3.1"
snafu = "=0.6.10"
tempfile = "=3.27.0"
tokio = { version = "=1.54.1", features = ["macros", "rt-multi-thread", "sync"] }
url = "=2.5.8"
