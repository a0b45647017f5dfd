[package]
name = "wsarndr"
version = "0.1.0"
edition = "2021"
publish = false

[dependencies]
ash = "0.38"
ash-window = "0.13"
raw-window-handle = "0.6"
jni = "0.21"
fontdue = "0.9"
glam = "0.29"
bytemuck = { version = "1", features = ["derive"] }
anyhow = "1"
log = "0.4"
