[package]
name = "rom_downloader"
version = "0.1.0"
edition = "2021"
publish = false

[dependencies]
urlencoding = "2"
serde = { version = "1", features = ["derive"] }
serde_json = "1"
serde_yaml = "0.9"
reqwest = { version = "0.12", default-features = false, features = ["json", "stream", "rustls-tls"] }
tokio = { version = "1", features = ["rt", "time"] }
tokio-stream = "0.1"
zip = { version = "2", default-features = false, features = ["deflate"] }
sdl2 = "0.38"
fontdue = "0.9"
image = { version = "0.25", default-features = false, features = ["png", "jpeg"] }
