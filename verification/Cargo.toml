[package]
name = "aura"
version = "0.1.0"
edition = "2021"
publish = false

[dependencies]
anyhow = "=1.0.104"
async-trait = "=0.1.92"
blake3 = { version = "=1.8.7", default-features = false, features = ["std", "pure"] }
hcl-rs = "=0.20.0"
image = { version = "=0.25.10", default-features = false, features = ["png", "jpeg", "webp", "bmp", "gif"] }
indexmap = "=2.14.2"
rand = { version = "=0.9.5", features = ["small_rng"] }
reqwest = { version = "=0.12.28", default-features = false }
serde_json = "=1.0.154"
tokio = { version = "=1.54.1", features = ["rt", "sync", "net", "time"] }
tracing = "=0.1.44"
url = "=2.5.8"
walkdir = "=2.5.0"
windows-sys = { version = "=0.59.0", features = ["Win32_Foundation", "Win32_System_Com", "Win32_System_Registry", "Win32_UI_Shell", "Win32_UI_WindowsAndMessaging"] }
