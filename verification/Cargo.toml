[package]
name = "fastpaste"
version = "0.1.0"
edition = "2021"
publish = false

[dependencies]
anyhow = "=1.0.104"
arboard = { version = "=3.7.0", default-features = false, features = ["wayland-data-control"] }
chrono = "=0.4.45"
confy = "=2.0.0"
directories = "=6.0.0"
evdev = "=0.13.2"
fluent-templates = "=0.15.1"
keyring = { version = "=3.6.3", features = ["async-io", "async-secret-service", "crypto-rust", "windows-native"] }
libc = "=0.2.191"
refinery = { version = "=0.10.0", features = ["rusqlite"] }
rusqlite = { version = "=0.41.1", features = ["bundled-sqlcipher-vendored-openssl", "chrono"] }
secrecy = "=0.10.3"
serde = { version = "=1.0.229", features = ["derive"] }
single-instance = "=0.3.3"
sys-locale = "=0.3.2"
thiserror = "=2.0.21"
tracing = "=0.1.44"
tracing-subscriber = { version = "=0.3.23", features = ["env-filter"] }
unic-langid = "=0.9.6"
windows-sys = { version = "=0.61.2", features = ["Win32_Foundation", "Win32_Graphics_Gdi", "Win32_System_DataExchange", "Win32_System_LibraryLoader", "Win32_System_Threading", "Win32_UI_Input_KeyboardAndMouse", "Win32_UI_WindowsAndMessaging"] }
wl-clipboard-watch = "=0.1.0"
x11rb = "=0.13.2"

[dev-dependencies]
serde_json = "=1.0.154"
