[package]
name = "voice_rooms"
version = "0.1.0"
edition = "2021"
publish = false

[dependencies]
serenity = "0.12"
thiserror = "1"
tokio = { version = "1", features = ["macros", "rt-multi-thread", "time"] }
