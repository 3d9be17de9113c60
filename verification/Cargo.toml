[package]
name = "address_sync"
version = "0.1.0"
edition = "2021"
publish = false

[dependencies]
csv = "1"
zip = { version = "0.6", default-features = false, features = ["deflate"] }
regex = "1"
uuid = { version = "1", features = ["v4"] }
chrono = "0.4"
actix-web = { version = "4", default-features = false, features = ["macros"] }
actix-rt = "2"
reqwest = { version = "0.12", default-features = false, features = ["default-tls"] }
diesel = { version = "2", features = ["postgres", "r2d2", "uuid", "chrono"] }
diesel_migrations = "2"
dotenv = "0.15"
env_logger = "0.11"
log = "0.4"
serde = { version = "1", features = ["derive"] }
indicatif = "0.17"
