[package]
name = "fix_twitterlinks_bot"
version = "0.1.0"
edition = "2021"
publish = false

[dependencies]
serenity = "*"
reqwest = { version = "*", default-features = false }
tokio = { version = "*", features = ["macros", "rt-multi-thread"] }
