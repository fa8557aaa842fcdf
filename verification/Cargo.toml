[package]
name = "dbctx"
version = "0.1.0"
edition = "2021"
publish = false

[dependencies]
anyhow = "1"
axum = "*"
clap = { version = "4", features = ["derive"] }
dotenvy = "*"
mysql_async = "*"
rmcp = { version = "*", features = ["server", "transport-io", "transport-streamable-http-server"] }
serde = { version = "1", features = ["derive"] }
serde_json = "1"
sqlx = { version = "*", default-features = false, features = ["runtime-tokio", "postgres", "sqlite"] }
thiserror = "*"
tiberius = { version = "*", default-features = false, features = ["tds73", "rustls"] }
time = { version = "*", features = ["formatting"] }
tokio = { version = "1", features = ["full"] }
tokio-util = { version = "*", features = ["compat"] }
toml = "*"
tracing = "*"
tracing-subscriber = { version = "*", features = ["json"] }
