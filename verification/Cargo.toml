[package]
name = "portify"
version = "0.1.0"
edition = "2021"
publish = false

[dependencies]
owo-colors = "=4.4.0"
anstream = "=0.6.21"
clap = { version = "=4.6.7", features = ["derive"] }
clap_complete = "=4.6.11"
netstat2 = "=0.11.2"
serde = { version = "=1.0.229", features = ["derive"] }
serde_json = "=1.0.154"
sysinfo = "=0.33.1"
terminal_size = "=0.4.4"
libc = "=0.2.191"
windows-sys = { version = "=0.61.2", features = ["Win32_Foundation", "Win32_Security", "Win32_System_Threading"] }
