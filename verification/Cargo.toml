[package]
name = "timetracker"
version = "0.4.0"
edition = "2021"
publish = false

[dependencies]
chrono = "0.4"
csv = "1"
serde = { version = "1", features = ["derive"] }
serde_json = "1"
anyhow = "1"
rusqlite = { version = "*", features = ["bundled"] }
directories = "*"
printpdf = { version = "*", features = ["html"] }
