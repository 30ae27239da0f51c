[package]
name = "kit"
version = "0.1.0"
edition = "2021"
publish = false

[dependencies]
regex = "1"
pulldown-cmark = { version = "0.10", default-features = false, features = ["html"] }
emojis = "0.6"
unic-emoji-char = "0.9"
unic-segment = "0.9"
derive_more = "0.99"
uuid = { version = "1", features = ["v4"] }
futures = "0.3"
tracing = "0.1"
arboard = { version = "3", default-features = false }
dioxus = "0.4"
