[package]
name = "vhdx_manager"
version = "0.1.0"
edition = "2021"
publish = false

[dependencies]
uuid = { version = "1", features = ["v4"] }
chrono = "0.4"
serde = { version = "1", features = ["derive"] }
serde_json = "1"
rusqlite = { version = "*", features = ["bundled"] }
tracing = "0.1"
windows-sys = { version = "*", features = ["Win32_Storage_FileSystem", "Win32_System_Threading"] }
elevated = "*"
