[package]
name = "iggy_core"
version = "0.1.0"
edition = "2021"
publish = false

[dependencies]
ahash = "*"
bytes = "*"
flate2 = "*"
axum = "*"
tokio = { version = "*", features = ["rt-multi-thread", "macros", "net"] }
tower-http = { version = "*", features = ["cors"] }
serde = { version = "*", features = ["derive"] }
async-trait = "*"
