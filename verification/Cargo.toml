[package]
name = "rtensors"
version = "0.1.0"
edition = "2021"
publish = false

[dependencies]
num-traits = "0.2"
slotmap = "1"
rand = "0.9"
thiserror = "2"
image = { version = "0.25", default-features = false, features = ["png"] }
