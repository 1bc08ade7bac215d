[package]
name = "querypie-cli"
version = "0.1.0"
edition = "2021"
publish = false

[dependencies]
anstream = "0.6"
anstyle = "1"
anyhow = "1"
base64 = "0.22"
clap = { version = "4", features = ["derive"] }
clap_complete = { version = "4", features = ["unstable-dynamic"] }
dirs = "6"
prost = "0.13"
reqwest = { version = "0.12", default-features = false, features = ["blocking", "rustls-tls"] }
rmpv = "1"
serde = { version = "1", features = ["derive"] }
serde_json = "1"
serde_yaml = "0.9"
terminal_size = "0.4"
thiserror = "2"
unicode-width = "0.2"
url = "2"
uuid = { version = "1", features = ["v4"] }
