[package]
name = "shodoukan"
version = "1.0.1"
edition = "2021"
publish = false

[dependencies]
bzip2 = "0.4"
encoding_rs = "0.8"
flate2 = "1"
quick-xml = { version = "0.37", features = ["serialize"] }
regex = "1"
reqwest = { version = "0.12", default-features = false, features = ["blocking", "json", "rustls-tls"] }
rusqlite = { version = "0.32", features = ["bundled"] }
serde = { version = "1", features = ["derive"] }
serde_json = "1"
tar = "0.4"
zip = { version = "2", default-features = false, features = ["deflate"] }
