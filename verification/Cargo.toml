[package]
name = "world_sync"
version = "0.1.0"
edition = "2021"
publish = false

[dependencies]
bevy = { version = "=0.18.1", default-features = false, features = ["std"] }
bincode = "=1.3.3"
ggrs = { version = "=0.11.1", features = ["sync-send"] }
serde = { version = "=1.0.229", features = ["derive"] }
