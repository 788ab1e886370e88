[package]
name = "roguelike_engine"
version = "0.1.0"
edition = "2021"
publish = false

[dependencies]
rltk = { version = "=0.7.0", default-features = false, features = ["crossterm"] }
serde = { version = "=1.0.229", features = ["derive"] }
serde_json = "=1.0.154"
log = "=0.4.34"
config = "=0.10.1"
twyg = "=0.6.3"
