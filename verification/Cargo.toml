[package]
name = "serde_arrow"
version = "0.1.0"
edition = "2021"
publish = false

[dependencies]
chrono = { version = "0.4", default-features = false, features = ["std"] }
serde = { version = "1", features = ["derive"] }
arrow2 = { version = "*", default-features = false }
arrow = { version = "*", default-features = false, features = ["ffi", "csv"] }
