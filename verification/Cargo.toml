[package]
name = "onboarding_bot"
version = "0.1.0"
edition = "2021"
publish = false

[dependencies]
chrono = { version = "0.4", features = ["serde"] }
serde = { version = "1", features = ["derive"] }
serde_json = "1"
rocket = { version = "0.5", features = ["json"] }
diesel = { version = "2", features = ["postgres", "chrono", "uuid"] }
diesel_migrations = "2"
dotenv = "0.15"
redis = "0"
uuid = { version = "1", features = ["v4", "serde"] }
