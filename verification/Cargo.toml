[package]
name = "xml_splitter"
version = "0.1.0"
edition = "2021"
publish = false

[dependencies]
quick-xml = "0.37"
regex = "1"
evalexpr = "11"
chrono = "0.4"
serde = { version = "1", features = ["derive"] }
toml = "0.8"
log = "0.4"
log4rs = "1"
lettre = "0.11"
dotenvy = "0.15"
