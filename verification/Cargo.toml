[package]
name = "path_abs"
version = "0.1.0"
edition = "2021"
publish = false

[dependencies]
serde = { version = "1.0", features = ["derive"] }
stfu8 = "0.2"

[dev-dependencies]
serde_json = "1.0"
tempdir = "0.3"
