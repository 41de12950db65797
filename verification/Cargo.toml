[package]
name = "noisegate"
version = "0.1.0"
edition = "2021"
publish = false

[dependencies]
anyhow = "1"
deep_filter = { version = "0.2.5", default-features = false }
dirs = "=5.0.1"
flate2 = "1"
hound = "3.5"
ndarray = "0.15"
nnnoiseless = { version = "0.5", default-features = false }
ort = { version = "=2.0.0-rc.10", default-features = false, features = ["std", "load-dynamic"] }
realfft = "3"
ringbuf = "=0.4.8"
serde = { version = "1", features = ["derive"] }
tar = "0.4"
thiserror = "1"
toml = "0.8"
tracing = "0.1"
tracing-subscriber = { version = "0.3", features = ["env-filter"] }
tray-icon = { version = "0.19", default-features = false }
windows = { version = "0.58", features = ["Win32_Devices_FunctionDiscovery", "Win32_Foundation", "Win32_Media_Audio", "Win32_Media_KernelStreaming", "Win32_Media_Multimedia", "Win32_Security", "Win32_Storage_FileSystem", "Win32_System_Com", "Win32_System_Com_StructuredStorage", "Win32_System_Console", "Win32_System_Registry", "Win32_System_Threading", "Win32_System_Variant", "Win32_UI_Shell_PropertiesSystem", "Win32_UI_WindowsAndMessaging"] }
winit = { version = "0.30", default-features = false, features = ["rwh_06", "x11"] }
