[package]
name = "tinyhouse"
version = "0.1.0"
edition = "2021"
publish = false

[dependencies]
eframe = { version = "=0.29.1", default-features = false, features = ["glow", "default_fonts"] }
egui = "=0.29.1"
web-sys = { version = "0.3", features = ["Window", "console", "HtmlCanvasElement"] }
