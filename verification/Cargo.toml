[package]
name = "collection_db"
version = "0.1.0"
edition = "2021"
publish = false

[dependencies]
url = "2"
rosu-v2 = "*"
tokio = { version = "1", features = ["macros", "rt-multi-thread", "time"] }

[dev-dependencies]
osu-db = { version = "*", default-features = false }
