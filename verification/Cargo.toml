[package]
name = "lacabra_image_api"
version = "0.1.0"
edition = "2021"
publish = false

[dependencies]
rand = "0.9"
rocket = { version = "0.5", features = ["json"] }
rocket_cors = "0.6"
serde = { version = "1", features = ["derive"] }
serde_json = "1"
reqwest = { version = "0.12", features = ["blocking"] }
chrono = "0.4"
fern = { version = "0.7", features = ["colored"] }
log = "0.4"
dotenv = "0.15"
os_info = "3"
whoami = "1"
