[package]
name = "calibre_server"
version = "0.1.0"
edition = "2021"
publish = false

[dependencies]
askama = "0.12"
askama_axum = "0.4"
axum = "0.7"
chrono = "0.4"
clap = { version = "4", features = ["derive", "env"] }
mime_guess = "2"
quick-xml = "0.37"
serde = { version = "1", features = ["derive"] }
sqlx = { version = "0.8", default-features = false, features = ["runtime-tokio", "sqlite", "derive", "chrono"] }
tokio = { version = "1", features = ["rt-multi-thread", "macros", "fs", "net"] }
tower-http = { version = "0.5", features = ["compression-gzip", "trace"] }
tracing = "0.1"
tracing-subscriber = { version = "0.3", features = ["env-filter"] }
zip = { version = "7", default-features = false, features = ["deflate"] }
