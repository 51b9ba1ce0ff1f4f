[package]
name = "camembert"
version = "0.1.0"
edition = "2021"
publish = false

[dependencies]
clap = { version = "=4.6.7", features = ["derive", "env"] }
clap_complete = "=4.6.11"
clap_mangen = "=0.3.3"
crossterm = "=0.29.0"
libc = "0.2"
ratatui = "=0.30.2"
rustix = { version = "=1.1.6", features = ["fs", "termios"] }
serde = { version = "1", features = ["derive"] }
toml = { version = "=1.1.8", features = ["preserve_order"] }
tracing = "0.1"
tracing-subscriber = { version = "0.3", features = ["env-filter"] }
