[package]
name = "forum_core"
version = "0.1.0"
edition = "2021"
publish = false

[dependencies]
sha2 = "*"
rand = "*"
pulldown-cmark = "*"
ammonia = "*"
