[package]
name = "forest-chat"
version = "0.1.0"
edition = "2021"
publish = false

[dependencies]
sha2 = "0.10"
hex = "0.4"
base64 = "0.22"
image = { version = "0.25", default-features = false, features = ["jpeg"] }
serde = { version = "1", features = ["derive"] }
serde_json = "1"
actix-web = { version = "4", default-features = false, features = ["macros"] }
actix-ws = "0.3"
actix-files = "0.6"
actix-multipart = { version = "0.7", default-features = false }
tokio = { version = "1", features = ["rt", "sync", "macros", "fs", "time", "io-util", "net"] }
futures-util = "0.3"
bytestring = "1"
bytes = "1"
log = "0.4"
uuid = { version = "1", features = ["v4"] }
mime_guess = "2"
turso = "*"
tokio-tungstenite = "*"
