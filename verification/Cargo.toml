[package]
name = "discordshim"
version = "0.1.0"
edition = "2021"
publish = false

[dependencies]
byteorder = "1"
csv = "1"
regex = "1"
async-std = "1"
dotenvy = "0.15"
futures = "0.3"
log = "0.4"
pretty_env_logger = "0.5"
serenity = "0.11"
tokio = { version = "1", features = ["full"] }

[dev-dependencies]
protobuf = "3"
