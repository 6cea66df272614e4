[package]
name = "readability"
version = "0.1.0"
edition = "2021"
publish = false

[dependencies]
chrono = "0.4"
html5ever = "0.25"
kuchiki = "0.8"
regex = "1"
serde_json = "1"
url = "2"
