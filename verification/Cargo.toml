[package]
name = "pingap"
version = "0.1.0"
edition = "2021"
publish = false

[dependencies]
base64 = "0.22"
bytesize = "1"
http = "1"
humantime = "2"
url = "2"
