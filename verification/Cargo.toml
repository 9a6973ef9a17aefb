[package]
name = "tangl"
version = "0.1.0"
edition = "2021"
publish = false

[dependencies]
colored = "*"
itertools = "*"
serde = { version = "*", features = ["derive"] }
serde_json = "*"
termtree = "*"
uuid = { version = "*", features = ["v4"] }
