[package]
name = "btk_cloud"
version = "0.1.0"
edition = "2021"
publish = false

[dependencies]
anondb = "*"
anyhow = "1"
blake3 = "1"
chacha20 = "*"
directories = "*"
hex = "0.4"
ml-dsa = "*"
names = { version = "*", default-features = false }
rand = "*"
reqwest = { version = "*", default-features = false, features = ["blocking"] }
serde = { version = "1", features = ["derive"] }
tiny_http = "*"
url = "2"
web-time = "1"
