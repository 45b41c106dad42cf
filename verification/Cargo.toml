[package]
name = "max7219_chain"
version = "0.1.0"
edition = "2021"
publish = false

[dependencies]
anyhow = "1"
chrono = "0.4"
chrono-tz = "0.9"
embedded-graphics = "0.8"
embedded-hal = "0.2"
embedded-svc = "*"
esp-idf-svc = "*"
log = "0.4"
serde_json = "1"
toml-cfg = "0.2"
