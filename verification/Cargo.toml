[package]
name = "photoscanner"
version = "0.1.0"
edition = "2021"
publish = false

[dependencies]
anyhow = "=1.0.104"
async-channel = "=2.5.0"
chrono = "=0.4.45"
clap = { version = "=4.6.7", features = ["derive"] }
crc32fast = "=1.5.4"
dirs = "=7.0.0"
filetime = "=0.2.29"
gdk-pixbuf = "=0.22.0"
gettext-rs = { version = "=0.8.0", features = ["gettext-system"] }
gtk4 = { version = "=0.11.5", features = ["v4_14"] }
libadwaita = { version = "=0.9.2", features = ["v1_7"] }
opencv = "=0.101.1"
tempfile = "=3.27.0"
thiserror = "=2.0.21"
wait-timeout = "=0.2.1"
