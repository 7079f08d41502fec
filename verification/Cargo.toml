[package]
name = "openjd"
version = "0.1.0"
edition = "2021"
publish = false

[dependencies]
indexmap = "2"
libc = "0.2"
serde_json = "1"
tokio = { version = "1", features = ["rt-multi-thread", "sync"] }
tracing = "0.1"
windows-sys = { version = "0.59", features = ["Win32_Foundation", "Win32_Storage_FileSystem"] }
xxhash-rust = { version = "0.8", features = ["xxh3"] }
