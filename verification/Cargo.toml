[package]
name = "ulidgen"
version = "0.1.0"
edition = "2021"
publish = false

[dependencies]
rusty_ulid = "=2.0.1"
uuid = "=1.27.0"
time = "=0.3.55"
rand = "=0.10.3"
clap = { version = "=4.6.7", features = ["derive"] }
