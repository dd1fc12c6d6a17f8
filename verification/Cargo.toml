[package]
name = "earthwyrm"
version = "0.1.0"
edition = "2021"
publish = false

[dependencies]
postgres = "*"
r2d2 = "*"
r2d2_postgres = "*"
toml = "*"
