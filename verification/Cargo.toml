[package]
name = "tysm"
version = "0.1.0"
edition = "2021"
publish = false

[dependencies]
xxhash-rust = { version = "*", features = ["xxh3", "const_xxh3"] }
reqwest = { version = "*", default-features = false, features = ["json", "multipart"] }
serde = { version = "*", features = ["derive"] }
serde_json = "*"
schemars = "*"
thiserror = "*"
tokio = { version = "*", features = ["time", "fs"] }
tokio-util = { version = "*", features = ["codec"] }
url = "*"
lru = "*"
tynm = "*"
dotenvy = "*"
log = "*"
itertools = "*"
