[package]
name = "ps4"
version = "0.1.0"
edition = "2021"
publish = false

[dependencies]
data-encoding = "*"
flate2 = "*"
hex = "*"
isahc = "*"
ring = "*"
rusqlite = { version = "*", features = ["bundled"] }
serde = { version = "*", features = ["derive"] }
serde_derive = "*"
serde_json = "*"
sudo = "*"
tar = "*"
version-compare = "*"
walkdir = "*"
