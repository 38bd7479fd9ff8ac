[package]
name = "sandpack_cdn"
version = "0.1.0"
edition = "2021"
publish = false

[dependencies]
node-semver = "*"
glob = "*"
base64-simd = "*"
flate2 = "*"
tar = "*"
serde = { version = "*", features = ["derive"] }
serde_json = "*"
rmp-serde = "*"
serde_bytes = "*"
