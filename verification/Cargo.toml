[package]
name = "langfix"
version = "0.1.0"
edition = "2021"
publish = false

[dependencies]
global-hotkey = "=0.6.4"
serde = { version = "=1.0.229", features = ["derive"] }
serde_json = "=1.0.154"
arboard = "=3.7.0"
enigo = "=0.6.1"
