[package]
name = "hyprdie"
version = "0.1.0"
edition = "2021"
publish = false

[dependencies]
serde = { version = "1", features = ["derive"] }
serde_json = "1"
toml = "0.8"
dirs = "5"
nix = { version = "0.29", features = ["signal", "process"] }
ab_glyph = "0.2"
image = { version = "0.25", default-features = false, features = ["png", "jpeg", "gif", "webp", "bmp", "tiff", "ico", "pnm", "tga", "qoi", "hdr"] }
calloop = "0.13"
calloop-wayland-source = "0.3"
smithay-client-toolkit = "0.19"
wayland-client = "0.31"
