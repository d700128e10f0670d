[package]
name = "facial"
version = "0.1.0"
edition = "2021"
publish = false

[dependencies]
chrono = { version = "=0.4.45", default-features = false, features = ["now", "serde"] }
eframe = { version = "=0.27.2", default-features = false, features = ["default_fonts", "glow"] }
egui-phosphor = "0.5"
image = { version = "=0.25.10", default-features = false, features = ["jpeg", "png"] }
redb = "=3.1.3"
regex = "=1.13.1"
serde = { version = "=1.0.229", features = ["derive"] }
serde_json = "=1.0.154"
sha2 = "=0.10.9"
uuid = { version = "=1.29.0", features = ["v4"] }
walkdir = "=2.5.0"
windows-sys = { version = "0.59", features = ["Win32_Foundation", "Win32_Media_Multimedia", "Win32_Storage_FileSystem", "Win32_System_Threading"] }
