[package]
name = "school_cats"
version = "0.1.0"
edition = "2021"
publish = false

[dependencies]
anyhow = "=1.0.104"
bytes = "=1.12.1"
chrono = "=0.4.45"
dotenv = "=0.15.0"
encoding = "=0.2.33"
env_logger = "=0.10.2"
futures = "=0.3.34"
gloo = "=0.8.1"
gloo-net = "=0.2.6"
jsonwebtoken = "=8.3.0"
log = "=0.4.35"
mysql = "=23.0.1"
serde = { version = "=1.0.229", features = ["derive"] }
serde_json = { version = "=1.0.154", features = ["preserve_order"] }
sha256 = "=1.6.0"
tokio = { version = "=1.54.1", features = ["macros", "rt", "fs"] }
uuid = { version = "=1.29.0", features = ["v4"] }
warp = "=0.3.7"
wasm-bindgen-futures = "=0.4.80"
web-sys = { version = "=0.3.107", features = ["Storage", "Window", "Location", "console", "HtmlInputElement", "HtmlTextAreaElement", "Blob", "File", "FileList", "FormData"] }
yew = { version = "=0.20.0", features = ["csr"] }
yew-router = "=0.17.0"
