[package]
name = "raumen_text"
version = "0.1.0"
edition = "2021"
publish = false

[dependencies]
cupid = "0.6"
gl = "0.14"
glutin = "0.24"
image = "0.23"
sysinfo = "0.14"
systemstat = "0.1"
time = "0.2"
