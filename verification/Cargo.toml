[package]
name = "smartcalc"
version = "1.0.8"
edition = "2021"
publish = false

[dependencies]
regex = "1"
chrono = "0.4"
chrono-tz = "0.8"
serde = { version = "1", features = ["derive"] }
serde_derive = "1"
serde_json = "1"
serde_repr = "0.1"
log = "0.4"
lazy_static = "1"
anyhow = "1"
libc-print = "0.1"
num-format = { version = "0.4", features = ["with-system-locale"] }
hyper = { version = "0.14", features = ["server", "http1", "tcp"] }
tokio = { version = "1", features = ["rt-multi-thread", "macros", "signal"] }
querystring = "1"
urlencoding = "2"
