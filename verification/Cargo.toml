[package]
name = "pnp"
version = "0.1.0"
edition = "2021"
publish = false

[dependencies]
arca = "*"
byteorder = "*"
concurrent_lru = "*"
fancy-regex = "*"
indexmap = "*"
miniz_oxide = "*"
mmap-rs = "*"
pathdiff = "*"
radix_trie = "*"
rustc-hash = "*"
serde = { version = "*", features = ["derive"] }
serde_json = "*"
thiserror = "*"
