[package]
name = "namir"
version = "0.1.0"
edition = "2021"
publish = false

[dependencies]
rtrb = "=0.3.6"
rubato = "=0.16.2"
egui = "0.35"
egui-baseview = "0.6"
baseview = "0.2.2"
raw-window-handle = "=0.6.2"
