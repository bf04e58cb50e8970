[package]
name = "rusty_othello_ai"
version = "0.1.0"
edition = "2021"
publish = false

[dependencies]
rand = "0.8"
serde_json = "1"
ureq = { version = "2", default-features = false, features = ["json"] }
