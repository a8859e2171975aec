[package]
name = "tea_partition_generator"
version = "0.1.0"
edition = "2021"
publish = false

[dependencies]
regex = "1"
sysinfo = "0.32"
serde = { version = "1", features = ["derive"] }
serde_json = "1"
duct = "0.13"
