[package]
name = "transplant"
version = "0.1.0"
edition = "2021"
publish = false

[dependencies]
anyhow = "*"
base64 = "*"
dotenv = "*"
flate2 = "*"
futures = "*"
indicatif = "*"
rbx_binary = "*"
rbx_dom_weak = "*"
rbx_types = "*"
reqwest = { version = "*", features = ["cookies", "json"] }
reqwest-middleware = "*"
reqwest-retry = "*"
rustyline = "*"
serde = { version = "*", features = ["derive"] }
serde_json = "*"
tokio = { version = "*", features = ["full"] }
windows-sys = { version = "*", features = ["Win32_Foundation", "Win32_Security_Cryptography"] }
