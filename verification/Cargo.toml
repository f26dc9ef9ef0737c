[package]
name = "scratchbox"
version = "0.1.0"
edition = "2021"
publish = false

[dependencies]
slug = "*"
jiff = "*"
serde = { version = "1", features = ["derive"] }
toml = "*"
directories = "*"
notify = "*"
notify-debouncer-full = "*"
crossbeam-channel = "*"
crossterm = "*"
ratatui = "*"
edtui = "*"
two-face = "*"
anyhow = "*"
thiserror = "*"
tracing = { version = "*", default-features = false, features = ["std"] }
tracing-subscriber = { version = "*", default-features = false, features = ["fmt", "env-filter", "std"] }
tracing-appender = "*"
