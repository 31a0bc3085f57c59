[package]
name = "brush_render"
version = "0.1.0"
edition = "2021"
publish = false

[dependencies]
anyhow = "*"
clap = { version = "*", features = ["derive"] }
glam = "*"
image = { version = "*", default-features = false, features = ["png"] }
tokio = { version = "*", features = ["macros", "rt-multi-thread", "fs"] }
