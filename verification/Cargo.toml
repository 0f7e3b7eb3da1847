[package]
name = "virtual_fs"
version = "0.1.0"
edition = "2021"
publish = false

[dependencies]
wasmparser = "*"
shared-buffer = "*"
tar = "*"
flate2 = "*"
lzma-rs = "*"
sevenz-rust2 = "*"
unrar = "*"
zip = { version = "*", default-features = false, features = ["deflate"] }
futures = "*"
serde = { version = "1", features = ["derive"] }
rkyv = "*"
loupe = "*"
