[package]
name = "c2bpp"
version = "0.1.0"
edition = "2021"
publish = false

[dependencies]
image = "*"
serde = { version = "*", features = ["derive"] }
structopt = "*"
toml = "*"
