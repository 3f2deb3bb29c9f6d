[package]
name = "ir"
version = "0.1.0"
edition = "2021"
publish = false

[dependencies]
clap = "4"
saphyr = "*"
saphyr-parser = "*"
serde = { version = "1", features = ["derive"] }
serde_json = "1"
sha2 = "0.10"
time = { version = "0.3", features = ["parsing", "macros"] }
