[package]
name = "builder_admin"
version = "0.1.0"
edition = "2021"
publish = false

[dependencies]
bodyparser = "*"
iron = "*"
router = "*"
rustc-serialize = "*"
serde = { version = "1", features = ["derive"] }
serde_json = "*"
