[package]
name = "talklike"
version = "0.1.0"
edition = "2021"
publish = false

[dependencies]
rand = "=0.7.3"
serde_json = "=1.0.154"
serenity = "=0.10.10"
tokio = { version = "=1.54.1", features = ["macros", "rt-multi-thread"] }

[dev-dependencies]
lmarkov = { version = "=0.1.0", features = ["serialization"] }
