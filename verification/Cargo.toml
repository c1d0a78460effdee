[package]
name = "zellij-ssh-manager"
version = "0.1.0"
edition = "2021"
publish = false

[dependencies]
glob = "0.3"
zellij-tile = "*"

[dev-dependencies]
glob = "0.3"
