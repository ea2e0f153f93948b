[package]
name = "filelens"
version = "0.1.0"
edition = "2021"
publish = false

[dependencies]
winapi = "0.2"
user32-sys = "0.2"
kernel32-sys = "0.2"
comctl32-sys = "0.2"
scan_dir = "0.3"
time = "0.1"
lazy_static = "0.2"
