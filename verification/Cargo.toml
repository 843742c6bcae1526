[package]
name = "tabula"
version = "0.1.0"
edition = "2021"
publish = false

[dependencies]
chatgpt_rs = "*"
clap = { version = "4", features = ["cargo"] }
eyre = "0.6"
plotly = "*"
rustyline = "*"
serde = { version = "1", features = ["derive"] }
tokio = { version = "1", features = ["rt-multi-thread"] }
