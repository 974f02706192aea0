[package]
name = "slate"
version = "0.1.0"
edition = "2021"
publish = false

[dependencies]
ulid = "1"
serde = { version = "1", features = ["derive"] }
serde_json = "1"
tokio = { version = "1", features = ["full"] }
axum = "*"
http = "1"
http-body-util = "*"
hyper = { version = "1", features = ["full"] }
hyper-util = { version = "*", features = ["full"] }
hyperlocal = "*"
reqwest = { version = "*", default-features = false, features = ["json"] }
rusqlite = { version = "*", features = ["bundled"] }
arboard = "3"
libc = "0.2"
clap = { version = "4", features = ["derive"] }
zstd = "*"
