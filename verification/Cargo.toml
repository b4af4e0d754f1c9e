[package]
name = "llama_recipe_manager"
version = "0.4.0"
edition = "2021"
publish = false

[dependencies]
shell-words = "1"
uuid = { version = "1", features = ["v4"] }
chrono = "0.4"
serde = { version = "1", features = ["derive"] }
serde_json = "1"
rusqlite = { version = "*", features = ["bundled"] }
tokio = { version = "1", features = ["full"] }
reqwest = { version = "0.12", features = ["json", "stream"] }
futures-util = "0.3"
gguf-rs = "*"
libc = "0.2"
windows-sys = { version = "*", features = ["Win32_System_Console"] }

[dev-dependencies]
tempfile = "3"
