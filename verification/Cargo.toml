[package]
name = "autocompletion"
version = "0.1.0"
edition = "2021"
publish = false

[dependencies]
qp-trie = "=0.8.2"
eudex = "=0.1.1"
romaji = "=0.1.1"
serde = { version = "=1.0.229", features = ["derive"] }
bincode = "=1.3.3"
