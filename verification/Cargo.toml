[package]
name = "glimmer"
version = "0.1.0"
edition = "2021"
publish = false

[dependencies]
actix = "0.13"
cairo-rs = "0.15"
clap = { version = "4", features = ["derive"] }
gdk = "0.15"
glib = "0.15"
gtk = "0.15"
swayipc = "3"
swayipc-async = "2"
tokio-i3ipc = "*"
tokio-stream = "0.1"
