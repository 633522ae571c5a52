[package]
name = "on9au_tools"
version = "0.1.0"
edition = "2021"
publish = false

[dependencies]
anyhow = "=1.0.104"
clap = { version = "=4.6.7", features = ["derive", "env"] }
comfy-table = "=7.2.2"
dialoguer = { version = "=0.12.0", features = ["fuzzy-select"] }
serde = { version = "=1.0.229", features = ["derive"] }
serde_json = "=1.0.154"
tempfile = "=3.27.0"
time = { version = "=0.3.55", features = ["formatting"] }
toml = "=1.1.8"
walkdir = "=2.5.0"
windows = { version = "=0.62.2", features = ["Win32_Foundation", "Win32_System_RestartManager", "Win32_System_Threading"] }
xmltree = { version = "=0.12.0", features = ["attribute-sorted"] }
zip = "=8.6.0"
