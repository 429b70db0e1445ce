[package]
name = "cargo_watch"
version = "0.1.0"
edition = "2021"
publish = false

[dependencies]
anyhow = "1"
nix = { version = "0.30", features = ["fs"] }
notify-rust = "4"
open = "5"
serde = { version = "1", features = ["derive"] }
zbus = "5"
