[package]
name = "ollama_stream"
version = "0.1.0"
edition = "2021"
publish = false

[dependencies]
serde_json = "1"
serde = { version = "1", features = ["derive"] }
reqwest = { version = "0.12", default-features = false, features = ["json", "stream"] }
futures = { version = "0.3", default-features = false, features = ["std"] }
tauri = { version = "2", default-features = false }
rusqlite = { version = "*", features = ["bundled"] }
chrono = { version = "0.4", default-features = false, features = ["now"] }
uuid = { version = "1", features = ["v4"] }
sysinfo = { version = "*", default-features = false, features = ["system", "disk"] }
