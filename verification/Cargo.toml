[package]
name = "json_with_comments"
version = "0.1.0"
edition = "2021"
publish = false

[dependencies]
serde = { version = "1", features = ["derive"] }
thiserror = "1"
itoa = "1"
ryu = "1"
num = "0.4"
indexmap = "2"
