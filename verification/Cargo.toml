[package]
name = "lae_tui"
version = "0.1.0"
edition = "2021"
publish = false

[dependencies]
base64 = "0.22"
urlencoding = "2"
serde_json = "1"
rand = "0.8"
crossterm = "0.28"
ureq = { version = "2", features = ["json"] }
