[package]
name = "heic_to_dynamic_gnome_wallpaper"
version = "0.1.0"
edition = "2021"
publish = false

[dependencies]
anyhow = "1"
base64 = "0.13"
clap = "3"
colored = "2"
indicatif = "0.16"
libheif-rs = "*"
png = "0.17"
plist = "1"
quick-xml = "0.22"
serde = { version = "1", features = ["derive"] }
