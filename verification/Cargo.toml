[package]
name = "bkmrk_lib"
version = "0.1.0"
edition = "2021"
publish = false

[dependencies]
chrono = "0.4"
unescape = "0.1"
clap = { version = "3", features = ["derive"] }
color-eyre = "0.6"
dialoguer = "0.10"
dirs = "4"
dotenv = "0.15"
eyre = "0.6"
log = "0.4"
nanoid = "0.4"
owo-colors = "3"
pretty_env_logger = "0.4"
rusqlite = { version = "0.28", features = ["array", "bundled"] }
tabled = "0.6"
terminal_size = "0.1"
webpage = "1"

[dev-dependencies]
regex = "1"
