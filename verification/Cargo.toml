[package]
name = "adsys_mount"
version = "0.1.0"
edition = "2021"
publish = false

[dependencies]
gio = "0.17"
glib = "0.17"
log = "0.4"
serde = { version = "1", features = ["derive"] }
