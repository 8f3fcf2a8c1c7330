[package]
name = "honu"
version = "0.1.0"
edition = "2021"
publish = false

[dependencies]
anyhow = "1"
clap = { version = "4", features = ["derive"] }
imara-diff = "0.2"
indicatif = "0.18"
ratatui = "*"
rusqlite = { version = "*", features = ["bundled", "backup"] }
skim = "*"
unicode-display-width = "*"
unicode-segmentation = "1"
uuid = { version = "1", features = ["v4", "v5"] }
xdg = "*"
