[package]
name = "music_terminal_player"
version = "2.0.5"
edition = "2021"
publish = false

[dependencies]
anyhow = "1"
crossterm = "0.29"
grammers-client = "*"
grammers-mtsender = "*"
grammers-session = "*"
rpassword = "7"
serde_json = "1"
sha2 = "0.10"
symphonia = "0.5"
tokio = { version = "1", features = ["rt-multi-thread", "time", "macros"] }
unicode-width = "0.2"
