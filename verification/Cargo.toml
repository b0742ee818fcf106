[package]
name = "bfme2_manager"
version = "0.1.0"
edition = "2021"
publish = false

[dependencies]
md-5 = "*"
base_emoji = "*"
regex = "*"
handlebars = "*"
flate2 = "*"
tar = "*"
dirs = "*"
