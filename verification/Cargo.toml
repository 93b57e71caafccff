[package]
name = "helixor"
version = "0.1.0"
edition = "2021"
publish = false

[dependencies]
meval = "*"
urlencoding = "*"
uuid = { version = "*", features = ["v4"] }
serde = { version = "*", features = ["derive"] }
serde_json = "*"
toml = "*"
clap = { version = "*", features = ["derive"] }
reqwest = { version = "*", default-features = false, features = ["json"] }
tokio = { version = "*", features = ["rt-multi-thread", "macros"] }
rusqlite = { version = "*", features = ["bundled"] }
chrono = "*"
dotenv = "*"
async-trait = "*"
