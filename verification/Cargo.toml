[package]
name = "gemini_chat"
version = "0.1.0"
edition = "2021"
publish = false

[dependencies]
textwrap = "*"
uuid = { version = "*", features = ["v4"] }
crossterm = "*"
termimad = "*"
dirs = "*"
dotenvy = "*"
gemini-rs = "*"
tokio = { version = "*", features = ["rt", "macros"] }
