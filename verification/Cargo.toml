[package]
name = "sfs"
version = "0.1.0"
edition = "2021"
publish = false

[dependencies]
rand = "*"
base64 = "*"
tiny_http = "*"
webbrowser = "*"
reqwest = { version = "*", default-features = false }
tokio = { version = "*", features = ["macros", "rt-multi-thread"] }
dotenvy = "*"
serde_json = "*"

[dev-dependencies]
url = "*"
serde_urlencoded = "*"
