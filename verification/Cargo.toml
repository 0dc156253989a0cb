[package]
name = "catbox_cli"
version = "0.1.0"
edition = "2021"
publish = false

[dependencies]
url = "=2.5.8"
rand = "=0.10.3"
tl = "=0.7.8"
reqwest = { version = "=0.13.5", default-features = false, features = ["multipart", "cookies", "stream", "form"] }
tokio = { version = "*", features = ["fs", "rt-multi-thread", "macros", "sync", "io-util"] }
tokio-util = { version = "*", features = ["codec"] }
futures-util = "*"
indicatif = "*"
keyring = "*"
argh = "*"
color-eyre = "*"
