[package]
name = "rossby"
version = "0.1.0"
edition = "2021"
publish = false

[dependencies]
uuid = { version = "*", features = ["v4"] }
image = "*"
axum = "*"
tokio = { version = "*", features = ["full"] }
serde = { version = "*", features = ["derive"] }
serde_json = "*"
clap = { version = "*", features = ["derive", "env"] }
chrono = "*"
once_cell = "*"
arrow = "*"
arrow-ipc = "*"
arrow-schema = "*"
netcdf = "*"
tracing = "*"
tracing-subscriber = { version = "*", features = ["env-filter"] }
