[package]
name = "sivana"
version = "0.1.0"
edition = "2021"
publish = false

[dependencies]
rusqlite = { version = "*", features = ["bundled"] }
rustfft = "*"
symphonia = "*"
rubato = "*"
clap = { version = "*", features = ["derive"] }
