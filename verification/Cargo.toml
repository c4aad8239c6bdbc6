[package]
name = "todo"
version = "0.1.0"
edition = "2021"
publish = false

[dependencies]
url = "*"
clap = { version = "*", features = ["derive"] }
tokio = { version = "*", features = ["rt-multi-thread", "macros", "sync"] }
sqlx = { version = "*", default-features = false, features = ["runtime-tokio", "postgres", "sqlite", "macros"] }
async-trait = "*"
log = "*"
simplelog = "*"
dotenvy = "*"
anyhow = "*"

[dev-dependencies]
ron = "*"
