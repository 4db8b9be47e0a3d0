[package]
name = "rust_lessons"
version = "0.1.0"
edition = "2021"
publish = false

[dependencies]
regex = "1"
colored = "2"
clap = { version = "4", features = ["derive"] }
glob = "0.3"
rayon = "1"
libc = "0.2"
itertools = "*"
tracing = "0.1"

[dev-dependencies]
http = "*"
