[package]
name = "shadowenv"
version = "0.1.0"
edition = "2021"
publish = false

[dependencies]
anyhow = "1"
blake2 = "0.10"
clap = { version = "4", features = ["derive"] }
ed25519-dalek = { version = "2", features = ["rand_core"] }
hex = "0.4"
ketos = "*"
ketos_derive = "*"
libc = "0.2"
rand = "0.8"
regex = "1"
serde = { version = "1", features = ["derive"] }
serde_json = "1"
shell-escape = "0.1"
shellexpand = "*"
