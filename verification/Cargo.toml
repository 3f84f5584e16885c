[package]
name = "devix_core"
version = "0.1.0"
edition = "2021"
publish = false

[dependencies]
crossterm = "0.28"
ratatui = "0.29"
serde_json = "1"
thiserror = "2"
