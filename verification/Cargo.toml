[package]
name = "winux_kate"
version = "0.1.0"
edition = "2021"
publish = false

[dependencies]
base64 = "0.22"
image = { version = "0.25", default-features = false, features = ["png"] }
serde = { version = "1", features = ["derive"] }
serde_json = "1"
chrono = "0.4"
parking_lot = "0.12"
once_cell = "1"
env_logger = "0.11"
portable-pty = "0.8"
windows = { version = "0.58", features = ["Win32_Foundation", "Win32_UI_WindowsAndMessaging", "Win32_System_Diagnostics_ToolHelp", "Win32_System_Threading", "Win32_System_Registry", "Win32_System_Com", "Win32_UI_Shell", "Win32_Graphics_Gdi", "Win32_Storage_FileSystem", "Win32_UI_Input_KeyboardAndMouse", "Win32_System_LibraryLoader", "Win32_Devices_Bluetooth", "Win32_Media_Audio", "Win32_Media_Audio_Endpoints"] }
