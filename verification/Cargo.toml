[package]
name = "t2_fancontrol"
version = "0.1.0"
edition = "2021"
publish = false

[dependencies]
glob = "*"
thiserror = "*"
