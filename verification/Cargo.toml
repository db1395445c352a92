[package]
name = "cube_timer"
version = "0.1.0"
edition = "2021"
publish = false

[dependencies]
rand = "0.8"
crossterm = "0.27"
figlet-rs = "0.1"
home = "0.5"
serde_json = "1"
