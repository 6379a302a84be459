[package]
name = "evtrack"
version = "0.1.0"
edition = "2021"
publish = false

[dependencies]
anyhow = "*"
chrono = "=0.4.45"
clap = { version = "*", features = ["derive"] }
colored = "*"
csv = "*"
inquire = { version = "=0.9.4", features = ["date"] }
opener = "*"
plotly = "=0.14.1"
prettytable-rs = "*"
promptly = "*"
serde = { version = "*", features = ["derive"] }
sqlx = { version = "=0.9.0", features = ["runtime-tokio", "sqlite"] }
titlecase = "*"
tokio = { version = "*", features = ["macros", "rt-multi-thread"] }
