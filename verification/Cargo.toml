[package]
name = "rusty_chat"
version = "0.1.0"
edition = "2021"
publish = false

[dependencies]
serde = { version = "1", features = ["derive"] }
serde_json = "1"
time = "0.1"
iron = "0.6"
hyper = "0.10"
gtk = "*"
glib = "*"
