[package]
name = "reactor_core"
version = "0.1.0"
edition = "2021"
publish = false

[dependencies]
epoll = "4"
libc = "0.2"
