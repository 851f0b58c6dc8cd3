[package]
name = "coolc"
version = "0.1.0"
edition = "2021"
publish = false

[dependencies]
clap = { version = "3", features = ["cargo"] }

[dev-dependencies]
nom = "7"
nom_locate = "4"
