[package]
name = "guitar"
version = "0.1.0"
edition = "2021"
publish = false

[dependencies]
chrono = "*"
dirs = "*"
git2 = "*"
gix = "*"
im = "*"
notify = "*"
ratatui = "*"
rustc-hash = "*"
