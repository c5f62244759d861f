[package]
name = "moremaid"
version = "0.1.0"
edition = "2021"
publish = false

[dependencies]
toml = "*"
regex = "*"
nucleo-matcher = "*"
grep-matcher = "*"
grep-regex = "*"
grep-searcher = "*"
ignore = "*"
notify-debouncer-full = "*"
async-channel = "*"
open = "*"
serde = { version = "*", features = ["derive"] }
serde_json = "*"
gtk4 = { version = "*", features = ["v4_12"] }
libadwaita = { version = "*", features = ["v1_8"] }
webkit6 = "*"
