[package]
name = "sysmon"
version = "0.1.0"
edition = "2021"
publish = false

[dependencies]
base64 = "=0.22.1"
image = { version = "=0.25.10", default-features = false, features = ["png"] }
serde = { version = "1", features = ["derive"] }
sysinfo = "=0.37.2"
nvml-wrapper = "=0.11.0"
wmi = "=0.17.3"
windows = { version = "=0.61.3", features = ["Win32_Foundation", "Win32_Graphics_Dxgi", "Win32_Graphics_Dxgi_Common", "Win32_Graphics_Gdi", "Win32_System_Performance", "Win32_UI_Shell", "Win32_UI_WindowsAndMessaging", "Win32_Storage_FileSystem"] }
