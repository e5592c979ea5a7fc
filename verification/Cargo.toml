[package]
name = "transbot"
version = "0.1.0"
edition = "2021"
publish = false

[dependencies]
anyhow = "=1.0.104"
bincode = "=1.3.3"
clap = { version = "=4.6.7", features = ["derive"] }
ctrlc = "=3.5.2"
lol_html = "=3.0.3"
mime_guess = "=2.0.5"
pulldown-cmark = "=0.13.6"
pulldown-cmark-to-cmark = "=23.0.0"
quick-xml = "=0.37.5"
rbook = "=0.7.12"
regex = "=1.13.1"
reqwest = { version = "=0.12.28", default-features = false, features = ["blocking", "json", "rustls-tls"] }
serde = { version = "=1.0.229", features = ["derive"] }
serde_json = "=1.0.154"
text-splitter = "=0.33.1"
url = "=2.5.8"
