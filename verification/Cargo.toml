[package]
name = "ruyiseek"
version = "0.1.0"
edition = "2021"
publish = false

[dependencies]
serde = { version = "1", features = ["derive"] }
toml = "*"
x11rb = { version = "*", features = ["xinput"] }
libc = "0.2"
