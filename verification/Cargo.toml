[package]
name = "mvis"
version = "0.1.0"
edition = "2021"
publish = false

[dependencies]
anyhow = "1"
args = "2.2"
getopts = "0.2"
hex = "0.4"
home = "0.5"
infer = "*"
kira = "0.7"
num-complex = "0.4"
rayon = "1"
serde = { version = "1", features = ["derive"] }
serde_json = "1"
tui = { version = "0.19", default-features = false, features = ["termion"] }
