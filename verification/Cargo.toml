[package]
name = "odin_ssg"
version = "0.1.0"
edition = "2021"
publish = false

[dependencies]
anyhow = "1"
clap = { version = "4", features = ["derive"] }
notify = "6"
pulldown-cmark = "*"
rayon = "1"
serde = { version = "1", features = ["derive"] }
serde_json = "1"
serde_yaml = "0.9"
slug = "0.1"
tera = "1"
tiny_http = "0.12"
