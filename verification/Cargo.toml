[package]
name = "serial_terminal"
version = "0.1.0"
edition = "2021"
publish = false

[dependencies]
chrono = "0.4"
rustyline = "9"
serde = { version = "1", features = ["derive"] }
serialport = { version = "4", default-features = false }
structopt = "0.3"
toml = "0.5"
