[package]
name = "termjournal"
version = "0.1.0"
edition = "2021"
publish = false

[dependencies]
chrono = "0.4"
dirs = "5"
clap = { version = "4", features = ["derive"] }
colored = "2"
crossterm = "0.27"
ratatui = "0.26"
