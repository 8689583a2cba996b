[package]
name = "miracast-client"
version = "0.1.0"
edition = "2021"
publish = false

[dependencies]
anyhow = "1"
directories = "5"
glib = "0.20"
gstreamer = "0.23"
gtk4 = "0.9"
libadwaita = { version = "0.7", features = ["v1_4"] }
serde = { version = "1", features = ["derive"] }
thiserror = "2"
tokio = { version = "1", features = ["full"] }
toml = "0.8"
tracing = "0.1"
tracing-subscriber = { version = "0.3", features = ["env-filter"] }
uuid = { version = "1", features = ["v4"] }
zbus = "4"
