[package]
name = "recipes"
version = "0.1.0"
edition = "2021"
publish = false

[dependencies]
cooklang = "*"
similar = "2"
lru = "*"
rand = "0.8"
anyhow = "1"
thiserror = "*"
clap = { version = "4", features = ["derive", "env"] }
axum = "0.8"
tokio = { version = "1", features = ["full"] }
tower = { version = "0.5", features = ["util", "make"] }
tower-http = { version = "0.6", features = ["trace", "normalize-path"] }
tracing = "0.1"
tracing-subscriber = { version = "0.3", features = ["env-filter", "json"] }
walkdir = "2"
notify = "*"
notify-debouncer-full = "*"
mime_guess = "2"
serde = { version = "1", features = ["derive"] }

[dev-dependencies]
tempfile = "3"
