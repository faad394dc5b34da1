[package]
name = "alter_rsps"
version = "0.1.0"
edition = "2021"
publish = false

[dependencies]
object = { version = "*", features = ["read", "write"] }
tokio = { version = "1", features = ["full"] }
crossbeam = "*"
serde = { version = "1", features = ["derive"] }
anyhow = "1"
tracing = "*"
mlua = { version = "*", features = ["lua54", "vendored"] }
