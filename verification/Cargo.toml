[package]
name = "todor"
version = "0.1.0"
edition = "2021"
publish = false

[dependencies]
chrono = "*"
clap = { version = "*", features = ["derive"] }
inquire = { version = "*", features = ["date"] }
crossterm = "*"
colored = "*"
dirs = "*"
toml = "*"
serde = { version = "*", features = ["derive"] }
zip = { version = "*", default-features = false, features = ["aes-crypto"] }
cmd_lib = "*"
which = "*"
