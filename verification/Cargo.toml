[package]
name = "jotter"
version = "0.1.0"
edition = "2021"
publish = false

[dependencies]
ansi-to-tui = "*"
anyhow = "1"
base64 = "*"
clap = { version = "4", features = ["derive"] }
crossterm = { version = "*", features = ["event-stream"] }
futures = "*"
image = { version = "*", default-features = false, features = ["png", "jpeg", "gif"] }
jupyter-protocol = "*"
jupyter-zmq-client = "*"
libc = "*"
log = "*"
ratatui = "*"
ratatui-image = { version = "*", default-features = false }
ratex-layout = "*"
ratex-parser = "*"
ratex-svg = "*"
ratex-types = "*"
resvg = "*"
rmpv = "*"
serde = { version = "1", features = ["derive"] }
serde_json = "1"
syntect = { version = "*", default-features = false, features = ["default-fancy"] }
tokio = { version = "1", features = ["fs", "io-util", "macros", "process", "rt-multi-thread", "sync", "time"] }
toml = "*"
uuid = { version = "1", features = ["v4"] }
