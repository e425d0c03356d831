[package]
name = "dictate_desktop"
version = "0.1.0"
edition = "2021"
publish = false

[dependencies]
anyhow = "=1.0.104"
chrono = { version = "=0.4.45", default-features = false, features = ["clock", "std"] }
clap = { version = "=4.6.7", default-features = false, features = ["std", "derive", "help", "usage", "error-context"] }
clap_complete = "=4.6.11"
cpal = "=0.15.3"
dirs = "=6.0.0"
earshot = "=1.2.2"
evdev = { version = "=0.12.2", features = ["tokio"] }
femtovg = { version = "=0.28.0", default-features = false, features = ["textlayout"] }
futures = { version = "=0.3.34", default-features = false, features = ["std"] }
hound = "=3.5.1"
khronos-egl = { version = "=6.0.0", features = ["dynamic"] }
ksni = "=0.3.7"
reqwest = { version = "=0.12.28", default-features = false, features = ["json", "multipart", "rustls-tls"] }
resvg = { version = "=0.49.0", default-features = false }
rodio = { version = "=0.20.1", default-features = false, features = ["vorbis"] }
serde = { version = "=1.0.229", features = ["derive"] }
serde_json = "=1.0.154"
smithay-client-toolkit = { version = "=0.19.2", default-features = false, features = ["calloop"] }
tempfile = "=3.27.0"
tokio = { version = "=1.54.1", features = ["rt-multi-thread", "macros", "fs", "io-util", "net", "sync", "time", "signal"] }
tokio-tungstenite = { version = "=0.24.0", features = ["rustls-tls-webpki-roots"] }
toml = "=0.8.23"
tracing = "=0.1.44"
tracing-subscriber = { version = "=0.3.23", default-features = false, features = ["fmt", "env-filter"] }
wayland-client = { version = "=0.31.15", features = ["dlopen"] }
wayland-egl = "=0.32.11"
wayland-protocols-misc = { version = "=0.3.12", features = ["client"] }
wl-clipboard-rs = "=0.8.2"
