[package]
name = "ezcli"
version = "0.1.2"
edition = "2021"
publish = false

[dependencies]
clap = { version = "4", features = ["derive"] }
colored = "*"
inquire = "*"
serde = { version = "1", features = ["derive"] }
toml = "*"
winreg = "*"
windows = { version = "*", features = ["Win32_Foundation", "Win32_Globalization", "Win32_System_Console", "Win32_System_Com", "Win32_UI_Controls_Dialogs", "Win32_UI_Shell", "Win32_UI_Shell_Common"] }
