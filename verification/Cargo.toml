[package]
name = "oxidoc"
version = "0.1.0"
edition = "2021"
publish = false

[dependencies]
ansi_term = "0.12"
unicode-segmentation = "1"
unicode-width = "0.1"
strsim = "0.10"
regex = "1"
serde = { version = "1", features = ["derive"] }
bincode = "1"
toml = "0.5"
clap = "2"
log = "0.4"
env_logger = "0.9"
lazy_static = "1"
error-chain = "0.12"
pager = "0.16"
cursive = { version = "0.20", default-features = false, features = ["crossterm-backend"] }
pulldown-cmark = { version = "0.1", default-features = false }
syntect = { version = "*", default-features = false, features = ["default-fancy"] }
html2runes = "*"
syntex_syntax = "0.59"
