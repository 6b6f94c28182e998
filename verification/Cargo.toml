[package]
name = "private_server"
version = "0.1.0"
edition = "2021"
publish = false

[dependencies]
uuid = { version = "1", features = ["v4", "serde"] }
chrono = { version = "0.4", features = ["serde"] }
percent-encoding = "2"
httpdate = "1"
mime = "0.3"
mime_guess = "2"
serde = { version = "1", features = ["derive"] }
serde_json = "1"
notify = "4"
crossbeam-channel = "0.5"
log = "0.4"
env_logger = "0.11"
tide = "0.16"
async-std = { version = "1", features = ["attributes"] }
async-trait = "0.1"
futures = "0.3"
http = "0.2"
http-types = "2"
reqwest = { version = "0.11", features = ["json"] }
rusoto_core = "0.48"
rusoto_credential = "0.48"
rusoto_sns = "0.48"
