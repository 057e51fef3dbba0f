[package]
name = "rclippy"
version = "0.1.0"
edition = "2021"
publish = false

[dependencies]
sha2 = "0.10"
hmac = "0.12"
hkdf = "0.12"
base64 = "0.22"
x25519-dalek = { version = "2", features = ["static_secrets"] }
rand = "0.8"
rcgen = "0.13"
hex = "0.4"
anyhow = "1"
serde = { version = "1", features = ["derive"] }
serde_json = "1"
toml = "0.8"
tokio = { version = "1", features = ["full"] }
rustls = { version = "0.23", default-features = false, features = ["ring", "std", "tls12", "logging"] }
tokio-rustls = { version = "0.26", default-features = false, features = ["ring", "tls12", "logging"] }
rustls-pki-types = "1"
directories = "5"
keyring = { version = "3", features = ["apple-native", "windows-native", "linux-native"] }
arboard = "3"
auto-launch = "0.5"
hostname = "0.4"
eframe = { version = "*", default-features = false, features = ["glow", "x11", "default_fonts"] }
fontdb = "*"
