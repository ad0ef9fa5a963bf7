[package]
name = "track_queue"
version = "0.1.0"
edition = "2021"
publish = false

[dependencies]
rand = "0.9"
dotenv = "0.15"
parking_lot = "0.12"
tokio = { version = "1", features = ["macros", "rt-multi-thread", "sync"] }
serenity = "0.12"
songbird = "0.5"
poise = "0.6"
reqwest = "0.12"
