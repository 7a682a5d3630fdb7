[package]
name = "huozi"
version = "0.1.0"
edition = "2021"
publish = false

[dependencies]
anyhow = "1"
bytemuck = { version = "1", features = ["derive"] }
csscolorparser = "*"
env_logger = "*"
fontdue = "*"
image = { version = "*", default-features = false, features = ["png"] }
log = "0.4"
lru = "*"
serde = { version = "1", features = ["derive"] }
