[package]
name = "playlist_covers"
version = "0.1.0"
edition = "2021"
publish = false

[dependencies]
anyhow = "=1.0.104"
flume = "=0.12.0"
font8x8 = "=0.3.1"
image = { version = "=0.25.10", default-features = false, features = ["png"] }
rand = "=0.10.3"
ratatui = "=0.30.2"
ratatui-image = { version = "=11.0.8", default-features = false }
rspotify = { version = "=0.16.1", default-features = false, features = ["client-ureq"] }
tracing = "=0.1.44"
