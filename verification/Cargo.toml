[package]
name = "jsondoc"
version = "0.1.0"
edition = "2021"
publish = false

[dependencies]
regex = "1"
serde = "1"
serde_json = "1"
text-colorizer = "1"
