[package]
name = "interned_string"
version = "0.1.0"
edition = "2021"
publish = false

[dependencies]
left-right = "*"
lockfree = "*"
once_cell = "*"
radix_trie = "*"
serde = "*"

[dev-dependencies]
serde_json = "*"
