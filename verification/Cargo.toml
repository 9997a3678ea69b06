[package]
name = "serial_monitor"
version = "0.1.0"
edition = "2021"
publish = false

[dependencies]
crossterm = { version = "*", features = ["event-stream"] }
futures = "0.3"
mio-serial = { version = "*", default-features = false }
serialport = { version = "*", default-features = false }
structopt = "0.3"
strum = { version = "*", features = ["derive"] }
tokio = { version = "1", features = ["rt-multi-thread", "macros", "io-util"] }
tokio-serial = { version = "*", default-features = false }
tokio-util = { version = "0.7", features = ["codec"] }
wildmatch = "*"
