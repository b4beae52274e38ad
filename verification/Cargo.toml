[package]
name = "lsp_ws_proxy"
version = "0.1.0"
edition = "2021"
publish = false

[dependencies]
serde_json = { version = "=1.0.151", features = ["preserve_order"] }
uuid = { version = "=1.27.0", features = ["v4"] }
serde = { version = "=1.0.229", features = ["derive"] }
argh = "=0.1.19"
futures-util = "=0.3.34"
shellexpand = "=3.1.2"
tokio = { version = "=1.53.2", features = ["full"] }
tracing = "=0.1.44"
tracing-subscriber = { version = "=0.3.23", features = ["env-filter"] }
url = "=2.5.8"
warp = { version = "=0.4.3", features = ["server", "websocket"] }
sqlx = { version = "=0.9.0", default-features = false, features = ["runtime-tokio", "mysql", "postgres", "sqlite"] }
