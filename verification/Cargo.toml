[package]
name = "diagram_render_rs"
version = "0.1.0"
edition = "2021"
publish = false

[dependencies]
unicode-width = "=0.2.3"
clap = { version = "=4.5.61", features = ["derive"] }
resvg = "=0.48.1"
serde_json = "=1.0.154"
thiserror = "=2.0.21"
