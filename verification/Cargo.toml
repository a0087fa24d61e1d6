[package]
name = "scanpipe"
version = "0.1.0"
edition = "2021"
publish = false

[dependencies]
rand = "=0.8.8"
uuid = "=1.27.0"
serde = { version = "=1.0.229", features = ["derive"] }
serde_json = "=1.0.151"
actix-web = { version = "=4.15.0", default-features = false, features = ["macros"] }
tokio = { version = "=1.53.2", features = ["rt", "time", "macros"] }
reqwest = { version = "=0.12.28", default-features = false, features = ["blocking", "json"] }
pnet = "=0.35.0"
yaml-rust = "=0.4.5"
ctrlc = "3"
