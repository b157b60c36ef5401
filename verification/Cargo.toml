[package]
name = "gpui_window"
version = "0.1.0"
edition = "2021"
publish = false

[dependencies]
accesskit = { version = "*", features = ["enumn"] }
cocoa = "0.26"
core-foundation = "0.10"
core-foundation-sys = "0.8"
libc = "0.2"
log = "0.4"
metal = "*"
objc = "0.2"
parking_lot = "0.12"
wasm-bindgen = "0.2"
web-sys = { version = "0.3", features = ["HtmlCanvasElement", "HtmlInputElement"] }
windows = { version = "0.61", features = ["Win32_Foundation", "Win32_System_Com", "Win32_UI_Shell", "Win32_UI_Shell_Common", "Win32_UI_Shell_PropertiesSystem", "Win32_System_SystemServices"] }
