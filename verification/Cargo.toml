[package]
name = "course_archiver"
version = "0.1.0"
edition = "2021"
publish = false

[dependencies]
anyhow = "1"
encoding = "0.2"
serde = { version = "1", features = ["derive"] }
serde_json = "1"
slug = "0.1"
urlencoding = "2"
xml-rs = "*"
