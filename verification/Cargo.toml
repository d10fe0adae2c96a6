[package]
name = "opengl_rust"
version = "0.1.0"
edition = "2021"
publish = false

[dependencies]
anyhow = "1"
nalgebra-glm = "*"
noise = "*"
serde = { version = "1", features = ["derive"] }
