[package]
name = "myshell"
version = "0.1.0"
edition = "2021"
publish = false

[dependencies]
crossterm = "=0.29.0"
home = "=0.5.12"
os_pipe = "=1.2.3"
