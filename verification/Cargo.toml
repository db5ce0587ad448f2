[package]
name = "extract_beasts"
version = "0.1.0"
edition = "2021"
publish = false

[dependencies]
pest3_vm = "*"
anyhow = "1"
clap = { version = "4", features = ["derive"] }
rayon = "1"
serde = { version = "1", features = ["derive"] }
serde_json = "1"
yaml_serde = "*"
serde_yaml_ng = "*"
pdf-extract = "*"
hayro-syntax = "*"
euclid = "*"
itertools = "*"
derive_more = { version = "2", features = ["full"] }
nom = "8"
nom-language = "*"
