[package]
name = "dodeca"
version = "0.1.0"
edition = "2021"
publish = false

[dependencies]
rapidhash = "=4.5.1"
camino = "=1.2.6"
pulldown-cmark = { version = "=0.13.6", default-features = false }
tokio = { version = "=1.54.1", features = ["process", "fs", "sync", "rt", "macros", "net", "io-util", "time"] }
eyre = "=0.6.14"
async-send-fd = { version = "=1.2.0", features = ["tokio"] }
tracing = "=0.1.44"
tracing-subscriber = { version = "=0.3.23", features = ["env-filter", "fmt"] }
dashmap = "=6.2.1"
gingembre = "*"
marq = "*"
