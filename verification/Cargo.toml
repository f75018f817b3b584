[package]
name = "aff4tools"
version = "0.1.0"
edition = "2021"
publish = false

[dependencies]
flate2 = "1"
getrandom = "0.3"
lz4_flex = "0.11"
md-5 = "0.10"
serde = { version = "1", features = ["derive"] }
sha1 = "0.10"
sha2 = "0.10"
snap = "1"
