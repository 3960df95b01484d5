[package]
name = "termprint"
version = "0.1.0"
edition = "2021"
publish = false

[dependencies]
colored = "*"
reqwest = { version = "*", default-features = false }
serde = { version = "*", features = ["derive"] }
serde_json = "*"
termsize = "*"
time = { version = "*", features = ["formatting"] }
