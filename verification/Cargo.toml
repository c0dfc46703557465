[package]
name = "merde"
version = "0.1.0"
edition = "2021"
publish = false

[dependencies]
itoa = "1"
ryu = "1"
lexical-parse-float = { version = "0.8", features = ["format"] }
pin-project-lite = "0.2"
tokio = { version = "1", default-features = false, features = ["io-util"] }
serde = "1"
