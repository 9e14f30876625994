[package]
name = "salvo_router"
version = "0.1.0"
edition = "2021"
publish = false

[dependencies]
regex = "=1.13.1"
percent-encoding = "=2.3.2"

[dev-dependencies]
http = "1"
