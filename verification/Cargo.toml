[package]
name = "do_ddns"
version = "0.1.0"
edition = "2021"
publish = false

[dependencies]
url = "*"
reqwest = { version = "*", default-features = false, features = ["json"] }
tokio = { version = "*", features = ["rt-multi-thread", "macros", "fs", "io-util", "time"] }
clap = { version = "*", features = ["derive", "env"] }
log = "*"
simple_logger = "*"
anyhow = "*"
thiserror = "*"
serde = { version = "*", features = ["derive"] }
chrono = "*"
time = { version = "*", features = ["macros"] }
