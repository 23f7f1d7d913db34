[package]
name = "yoroi"
version = "0.1.0"
edition = "2021"
publish = false

[dependencies]
aes = "*"
cbc = { version = "*", features = ["alloc", "block-padding"] }
bcrypt = "*"
base64 = "*"
redis = "*"
once_cell = "*"
tokio = { version = "1", features = ["rt-multi-thread", "net", "sync", "time", "signal", "io-util", "macros"] }
hyper = { version = "1", features = ["http2", "server", "client"] }
hyper-util = { version = "*", features = ["tokio"] }
http-body-util = "*"
postgrest = "*"
