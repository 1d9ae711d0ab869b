[package]
name = "live_set_song_splitter"
version = "0.1.0"
edition = "2021"
publish = false

[dependencies]
stringmetrics = "*"
unidecode = "*"
anyhow = "*"
clap = { version = "*", features = ["derive"] }
serde = { version = "*", features = ["derive"] }
serde_json = "*"
image = { version = "*", default-features = false, features = ["png"] }
reqwest = { version = "*", default-features = false, features = ["blocking"] }
scraper = "*"
