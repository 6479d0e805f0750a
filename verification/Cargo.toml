[package]
name = "bigfiles"
version = "0.1.0"
edition = "2021"
publish = false

[dependencies]
rusqlite = { version = "=0.40.2", features = ["bundled"] }
indicatif = "=0.18.6"
prettytable-rs = "=0.10.0"
qr2term = "=0.3.3"
warp = { version = "=0.4.3", features = ["server"] }
tokio = { version = "=1.53.2", features = ["rt-multi-thread"] }
