[package]
name = "player_mover"
version = "0.1.0"
edition = "2021"
publish = false

[dependencies]
flate2 = "1"
clap = { version = "4", features = ["derive"] }
dialoguer = "0.11"
ureq = { version = "2", features = ["json"] }
serde = { version = "1", features = ["derive"] }

[dev-dependencies]
fastnbt = "2"
