[package]
name = "sparkle_native"
version = "0.1.0"
edition = "2021"
publish = false

[dependencies]
anyhow = "1"
napi = "3"
napi-derive = "3"
windows = { version = "0.62", features = ["Win32_Foundation", "Win32_System_Threading", "Win32_UI_Shell", "Win32_UI_WindowsAndMessaging", "Win32_Security", "Win32_Security_Authorization", "Win32_NetworkManagement_WindowsFirewall", "Win32_System_Com", "Win32_System_Ole", "Win32_System_Variant"] }
