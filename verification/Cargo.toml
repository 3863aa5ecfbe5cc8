[package]
name = "kite-lite-core"
version = "0.1.0"
edition = "2021"
publish = false

[dependencies]
anyhow = "1"
base64 = "0.22"
boa_engine = "0.20"
html5ever = "0.27"
markup5ever_rcdom = "0.3"
printpdf = { version = "0.7", features = ["embedded_images"] }
reqwest = { version = "0.12", default-features = false, features = ["blocking", "cookies", "rustls-tls"] }
resvg = "0.45"
serde = { version = "1", features = ["derive"] }
serde_json = "1"
tiny-skia = "0.11"
tokio = { version = "1", features = ["full"] }
tungstenite = "0.26"
url = "2"
usvg = "0.45"
