[package]
name = "wawa"
version = "0.1.0"
edition = "2021"
publish = false

[dependencies]
base64 = "*"
uiua = { version = "*", default-features = false, features = ["image", "gif", "audio_encode"] }
image = "*"
vorbis_rs = "*"
rand = "*"
serde_json = "*"
dotenv = "*"
serenity = "*"
tokio = { version = "*", features = ["macros", "rt-multi-thread"] }
reqwest = { version = "*", default-features = false, features = ["rustls-tls"] }
