[package]
name = "todo_track"
version = "0.1.0"
edition = "2021"
publish = false

[dependencies]
chrono = "0.4"
clap = { version = "4", features = ["derive"] }
grep = "0.3"
ignore = "0.4"

[dev-dependencies]
regex = "1"
