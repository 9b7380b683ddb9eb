[package]
name = "statussentinel"
version = "0.1.0"
edition = "2021"
publish = false

[dependencies]
byteorder = "=1.5.0"
chrono = "=0.4.45"
deadpool-postgres = "=0.14.2"
dotenv = "=0.15.0"
reqwest = { version = "=0.12.28", default-features = false, features = ["rustls-tls"] }
serde = { version = "=1.0.229", features = ["derive"] }
serde_json = "=1.0.151"
tokio = { version = "=1.53.2", features = ["macros", "rt-multi-thread", "time", "sync"] }
tokio-postgres = { version = "=0.7.18", features = ["with-chrono-0_4"] }
