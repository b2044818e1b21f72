[package]
name = "realtime_resource_tracker_cli"
version = "0.1.0"
edition = "2021"
publish = false

[dependencies]
anyhow = "=1.0.104"
clap = { version = "=4.6.7", features = ["derive"] }
crossterm = "=0.29.0"
ratatui = "=0.30.2"
ratatui-image = { version = "=11.1.0", default-features = false, features = ["crossterm"] }
image = { version = "=0.25.10", default-features = false }
plotters = { version = "=0.3.7", default-features = false, features = ["bitmap_backend", "line_series"] }
sysinfo = "=0.33.1"
