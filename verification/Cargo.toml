[package]
name = "sentinel_api"
version = "0.1.0"
edition = "2021"
publish = false

[dependencies]
select = "0.6"
regex = "1"
htmlescape = "0.3"
toml = "0.8"
serde = { version = "1", features = ["derive"] }
serde_derive = "1"
reqwest = { version = "0.12", default-features = false, features = ["blocking", "rustls-tls"] }
hyper = "1"
gtk = "0.18"
gdk = "0.18"
gio = "0.18"
glib = "0.18"
pango = "0.18"
gdk-pixbuf = "0.18"
