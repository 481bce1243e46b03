[package]
name = "browser_engine"
version = "0.1.0"
edition = "2021"

[dependencies]
url = "=2.5.8"
cssparser = "=0.38.0"
html5ever = "=0.40.1"
markup5ever = "=0.40.0"
serde_json = "1"
image = { version = "*", default-features = false, features = ["png"] }
