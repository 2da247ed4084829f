[package]
name = "domain_router"
version = "0.1.0"
edition = "2021"
publish = false

[dependencies]
url = "2"
quick-xml = "0.37"
lol_html = "2"
serde = { version = "1", features = ["derive"] }
serde_json = "1"
serde_yaml = "0.9"
js-sys = "0.3"
worker = "*"
reqwest = { version = "0.12", default-features = false, features = ["blocking", "json", "rustls-tls"] }
