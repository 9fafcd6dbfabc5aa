[package]
name = "skyforge"
version = "0.1.0"
edition = "2021"
publish = false

[dependencies]
clap = "*"
regex = "*"
serde = "*"
serde_json = "*"
serde_yml = "*"
tera = "*"
walkdir = "*"
