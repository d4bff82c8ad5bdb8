[package]
name = "desktop-mcp"
version = "0.1.0"
edition = "2021"
publish = false

[dependencies]
anyhow = "=1.0.104"
atspi = { version = "=0.30.0", features = ["tokio", "proxies", "connection"] }
axum = "=0.8.9"
base64 = "=0.22.1"
clap = { version = "=4.6.7", features = ["derive"] }
image = { version = "=0.25.10", default-features = false, features = ["png"] }
libc = "=0.2.191"
rmcp = { version = "=2.2.0", features = ["server", "macros", "transport-streamable-http-server"] }
schemars = "=1.2.3"
serde = { version = "=1.0.229", features = ["derive"] }
serde_json = "=1.0.154"
smithay = { version = "=0.7.0", default-features = false, features = ["desktop", "wayland_frontend", "xwayland", "renderer_pixman"] }
tokio = { version = "=1.54.1", features = ["full"] }
tracing = "=0.1.44"
tracing-subscriber = { version = "=0.3.23", features = ["env-filter"] }
xkeysym = "=0.2.1"
zbus = "=5.19.0"
