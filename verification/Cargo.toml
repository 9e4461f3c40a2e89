[package]
name = "ftrace_tui"
version = "0.1.0"
edition = "2021"
publish = false

[dependencies]
addr2line = "*"
clap = { version = "*", features = ["derive"] }
color-eyre = "*"
crossterm = { version = "*", features = ["event-stream"] }
futures = "*"
memchr = "*"
moka = { version = "*", features = ["sync"] }
ratatui = "*"
tokio = { version = "*", features = ["full"] }
tui-tree-widget = "*"
uuid = "*"
