[package]
name = "helix-term"
version = "0.1.0"
edition = "2021"
publish = false

[dependencies]
anyhow = "1.0"
arc-swap = "1.7"
chrono = "0.4"
crossterm = "0.28"
fern = "0.7"
futures-util = { version = "0.3", default-features = false, features = ["std"] }
libc = "0.2"
log = "0.4"
pulldown-cmark = { version = "=0.13.6", default-features = false }
ropey = { version = "=1.6.1", default-features = false, features = ["simd"] }
serde_json = "=1.0.154"
signal-hook = "0.3"
signal-hook-tokio = { version = "0.3", features = ["futures-v0_3"] }
similar = "=2.7.0"
termina = "*"
tokio = { version = "1", features = ["rt", "sync"] }
unicode-segmentation = "=1.13.3"
unicode-width = "=0.1.12"
