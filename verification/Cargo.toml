[package]
name = "nettamer"
version = "0.1.0"
edition = "2021"
publish = false

[dependencies]
serde = { version = "=1.0.229", features = ["derive"] }
serde_json = "=1.0.154"
log = "=0.4.35"
once_cell = "=1.21.4"
r2d2 = "=0.8.10"
r2d2_sqlite = "=0.24.0"
rusqlite = { version = "=0.31.0", features = ["bundled"] }
tokio = { version = "=1.54.1", features = ["time"] }
windows-sys = { version = "=0.52.0", features = ["Win32_Foundation", "Win32_Security", "Win32_System_Rpc", "Win32_System_Time", "Win32_NetworkManagement_IpHelper", "Win32_NetworkManagement_WindowsFilteringPlatform", "Win32_Networking_WinSock", "Win32_System_Diagnostics_Etw", "Win32_System_Diagnostics_ToolHelp", "Win32_System_Threading"] }
