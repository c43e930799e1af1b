[package]
name = "voice-orders"
version = "0.1.0"
edition = "2021"
publish = false

[dependencies]
humantime = "=2.4.0"
strsim = "=0.11.1"
shellexpand = "=3.1.2"
human-errors = { version = "=0.2.4", features = ["pretty"] }
clap = { version = "=4.6.7", features = ["derive"] }
cpal = "=0.18.2"
libc = "=0.2.191"
ratatui = "=0.30.2"
reqwest = { version = "=0.13.5", default-features = false, features = ["rustls"] }
serde = { version = "=1.0.229", features = ["derive"] }
serde_yaml = "=0.9.34+deprecated"
tokio = { version = "=1.54.1", features = ["fs", "io-util", "macros", "process", "rt-multi-thread", "signal", "sync", "time"] }
tokio-util = "=0.7.20"
windows-sys = { version = "*", features = ["Win32_Foundation", "Win32_Security", "Win32_System_Console", "Win32_System_JobObjects", "Win32_System_Threading"] }
