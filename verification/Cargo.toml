[package]
name = "bottlecap"
version = "0.1.0"
edition = "2021"
publish = false

[dependencies]
figment = { version = "=0.10.19", default-features = false, features = ["yaml", "env"] }
reqwest = { version = "=0.12.28", default-features = false, features = ["rustls-tls"] }
serde = { version = "=1.0.229", default-features = false, features = ["derive", "std"] }
serde_json = { version = "=1.0.154", default-features = false, features = ["std"] }
structopt = { version = "=0.3.26", default-features = false }
tokio = { version = "=1.54.1", default-features = false, features = ["macros", "rt-multi-thread"] }
tracing = { version = "=0.1.44", default-features = false, features = ["std"] }
