[package]
name = "snappaste"
version = "0.1.0"
edition = "2021"
publish = false

[dependencies]
image = { version = "=0.25.10", default-features = false, features = ["png"] }
chrono = "=0.4.45"
global-hotkey = "=0.9.0"
serde = { version = "=1.0.229", features = ["derive"] }
serde_json = "=1.0.154"
rusqlite = { version = "=0.40.2", features = ["bundled"] }
r2d2 = "=0.8.10"
r2d2_sqlite = "=0.35.0"
enigo = "=0.6.1"
clipboard-master = "=4.1.0"
arboard = "=3.7.0"
reqwest = { version = "=0.12.28", default-features = false, features = ["json", "blocking", "rustls-tls"] }
winreg = "=0.56.0"
windows-sys = { version = "=0.59.0", features = ["Win32_Foundation", "Win32_UI_WindowsAndMessaging", "Win32_System_DataExchange"] }
windows = { version = "=0.61.3", features = ["Win32_Foundation", "Win32_System_Com", "Win32_System_Ole", "Win32_System_Variant", "Win32_UI_Accessibility"] }
