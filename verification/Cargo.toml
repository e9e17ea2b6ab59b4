[package]
name = "netd"
version = "0.1.0"
edition = "2021"
publish = false

[dependencies]
libc = "0.2"
netlink-packet-core = "*"
netlink-packet-route = "*"
netlink-sys = "*"
peios = "*"
sha1 = "0.10"
