[package]
name = "scroll_tiler"
version = "0.1.0"
edition = "2021"
publish = false

[dependencies]
anyhow = "1"
log = "0.4"
pretty_env_logger = "0.5"
rdev = { version = "0.5", features = ["unstable_grab"] }
windows = { version = "0.61", features = ["Win32_Foundation", "Win32_Graphics_Dwm", "Win32_System_ProcessStatus", "Win32_System_Threading", "Win32_UI_Accessibility", "Win32_UI_WindowsAndMessaging"] }
windows-strings = "0.4"
