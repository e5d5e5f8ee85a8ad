[package]
name = "haproxy_autoconf"
version = "0.1.0"
edition = "2021"
publish = false

[dependencies]
sha2 = "0.10"
signal-hook = "0.3"
