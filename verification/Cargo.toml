[package]
name = "browser_superpeer"
version = "0.1.0"
edition = "2021"
publish = false

[dependencies]
aes = "=0.8.4"
cbc = "=0.1.2"
sha2 = "=0.10.9"
hex = "=0.4.3"
base64 = "=0.22.1"
rand = "0.8"
anyhow = "1"
serde = { version = "1", features = ["derive"] }
serde_json = "1"
clap = { version = "4", default-features = false, features = ["std", "derive", "help", "usage", "error-context"] }
tokio = { version = "1", features = ["macros", "rt-multi-thread", "net", "signal", "sync", "io-util", "time"] }
axum = "0.8"
tower-http = { version = "0.6", features = ["cors", "fs"] }
tracing = "0.1"
tracing-subscriber = { version = "0.3", default-features = false, features = ["fmt", "ansi", "std", "env-filter"] }
iroh = "*"
