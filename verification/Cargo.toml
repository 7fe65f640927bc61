[package]
name = "mouse_engine"
version = "0.1.0"
edition = "2021"
publish = false

[dependencies]
log = "0.4"
core-graphics = "0.23"
windows-sys = { version = "0.52", features = ["Win32_Foundation", "Win32_Graphics_Gdi", "Win32_UI_Input_KeyboardAndMouse", "Win32_UI_WindowsAndMessaging"] }
