[package]
name = "scoreboard"
version = "0.1.0"
edition = "2021"
publish = false

[dependencies]
axum = "=0.8.9"
azure_core = "=0.21.0"
azure_data_tables = "=0.21.0"
azure_storage = "=0.21.0"
base64 = "=0.23.1"
chrono = { version = "=0.4.45", features = ["serde"] }
dotenvy = "=0.15.7"
futures = "=0.3.34"
jsonwebtoken = "=11.1.0"
reqwest = { version = "=0.13.5", default-features = false, features = ["json", "form"] }
serde = { version = "=1.0.229", features = ["derive"] }
serde_json = "=1.0.151"
thiserror = "=2.0.21"
tokio = { version = "=1.53.2", features = ["macros", "rt-multi-thread", "net"] }
tower-http = { version = "=0.7.1", features = ["fs", "trace"] }
tracing = "=0.1.44"
tracing-subscriber = { version = "=0.3.23", features = ["env-filter", "fmt"] }
urlencoding = "=2.1.3"
uuid = { version = "=1.27.0", features = ["v4"] }
