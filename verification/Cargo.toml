[package]
name = "classroom_helper"
version = "0.1.0"
edition = "2021"
publish = false

[dependencies]
serde_json = "*"
chrono = "*"
unicode-width = "*"
clap = "*"
config = "*"
crossterm = "*"
tui = "*"
threadpool = "*"
fs_extra = "*"
