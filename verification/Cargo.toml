[package]
name = "mailpeter"
version = "0.1.0"
edition = "2021"
publish = false

[dependencies]
actix-multipart = "=0.8.5"
actix-web = "=4.15.0"
clap = { version = "=4.6.7", features = ["derive"] }
fast_log = { version = "=1.7.10", features = ["gzip"] }
fastdate = "=0.3.36"
futures-util = "=0.3.34"
html_parser = "=0.7.0"
infer = "=0.22.0"
lettre = { version = "=0.11.23", default-features = false, features = ["builder", "hostname", "pool", "smtp-transport", "file-transport", "tokio1", "tokio1-rustls-tls"] }
log = "=0.4.34"
regex = "=1.13.1"
serde = { version = "=1.0.229", features = ["derive"] }
toml = "=1.1.7"
voca_rs = "=1.15.2"
