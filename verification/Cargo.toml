[package]
name = "powens_maybe_finance_connector"
version = "0.1.0"
edition = "2021"
publish = false

[dependencies]
chrono = "*"
serde = { version = "*", features = ["derive"] }
serde_json = "*"
tokio = { version = "*", features = ["macros", "rt-multi-thread", "net", "time"] }
axum = "*"
reqwest = { version = "*", default-features = false, features = ["json"] }
dotenv = "*"
regex = "*"
strum = { version = "*", features = ["derive"] }
tracing = "*"
tracing-subscriber = "*"
