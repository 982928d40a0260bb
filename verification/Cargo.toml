[package]
name = "cosmic_edit"
version = "0.1.0"
edition = "2021"
publish = false

[dependencies]
regex = "=1.13.1"
patch = "=0.7.0"
unicode-segmentation = "=1.13.3"
serde = { version = "=1.0.229", features = ["derive"] }
serde_json = "=1.0.154"
dirs = "=7.0.0"
atomicwrites = "=0.4.4"
grep = "*"
ignore = "*"
