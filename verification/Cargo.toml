[package]
name = "attach"
version = "0.1.0"
edition = "2021"
publish = false

[dependencies]
chrono = "0.4"
chrono-humanize = "0.2"
vt100 = "0.15"
clap = { version = "4", features = ["derive"] }
dialoguer = "0.11"
portable-pty = "0.8"
terminal_size = "0.4"
tokio = { version = "1", features = ["full"] }
futures = "0.3"
libc = "0.2"
