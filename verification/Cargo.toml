[package]
name = "paystubs"
version = "0.1.0"
edition = "2021"
publish = false

[dependencies]
time = { version = "=0.3.55", features = ["parsing", "macros"] }
serde = { version = "=1.0.229", features = ["derive"] }
serde_json = "=1.0.154"
duct = "=1.1.2"
bitcode = { version = "=0.6.9", features = ["derive"] }
redb = "=4.4.0"
tokio = { version = "=1.54.1", features = ["rt-multi-thread", "net", "time"] }
axum = { version = "=0.8.9", default-features = false, features = ["http1", "json", "multipart", "tokio", "matched-path", "original-uri", "tower-log", "tracing"] }
tower-http = { version = "=0.7.1", features = ["cors"] }
tracing = "=0.1.44"
tracing-subscriber = "=0.3.23"
uuid = { version = "=1.29.0", features = ["v4"] }
eframe = { version = "=0.37.0", default-features = false, features = ["glow", "x11", "default_fonts"] }
egui_extras = { version = "=0.37.0", default-features = false }
egui-phosphor = { version = "=0.14.0", features = ["thin", "regular"] }
egui_plot = "=0.38.0"
rfd = { version = "*", default-features = false, features = ["xdg-portal", "tokio"] }
