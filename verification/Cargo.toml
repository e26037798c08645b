[package]
name = "chiyocore"
version = "0.1.0"
edition = "2021"
publish = false

[dependencies]
memchr = "2"
xxhash-rust = { version = "0.8", features = ["xxh32", "const_xxh32"] }
sha2 = "0.10"
base64 = "0.22"
hex = "0.4"
heapless = "0.9"
litemap = "0.8"
smallvec = "1"
smol_str = "*"
serde = { version = "1", features = ["derive"] }
postcard = { version = "1", features = ["alloc"] }
ed25519-compact = "2"
