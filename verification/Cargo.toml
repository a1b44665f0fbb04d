[package]
name = "asus_backlight_idle"
version = "0.1.0"
edition = "2021"
publish = false

[dependencies]
evdev = "0.13"
inotify = { version = "0.11", default-features = false }
libc = "0.2"
