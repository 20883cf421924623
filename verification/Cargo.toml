[package]
name = "zine_maker"
version = "0.1.0"
edition = "2021"
publish = false

[dependencies]
serde = { version = "1", features = ["derive"] }
uuid = { version = "1", features = ["v4"] }
printpdf = { version = "0.7", features = ["embedded_images"] }
image = "0.24"
