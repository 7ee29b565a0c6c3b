[package]
name = "fpm"
version = "0.1.0"
edition = "2021"
publish = false

[dependencies]
clap = "*"
console = "*"
dialoguer = "*"
dirs = "*"
fs-err = "*"
indicatif = "*"
itertools = "*"
opener = "*"
path-absolutize = "*"
prettytable-rs = "*"
regex = "*"
serde = { version = "*", features = ["derive"] }
serde_json = "*"
serde_yaml = "*"
strsim = "*"
thiserror = "*"
toml = "*"
turbosql = "*"
walkdir = "*"
