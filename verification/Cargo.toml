[package]
name = "pacdef"
version = "0.1.0"
edition = "2021"
publish = false

[dependencies]
anyhow = "1"
color-eyre = "0.6"
derive_more = { version = "1", features = ["display"] }
home = "0.5"
indoc = "2"
log = "0.4"
serde = { version = "1", features = ["derive"] }
serde-inline-default = "0.2"
serde_json = "1"
