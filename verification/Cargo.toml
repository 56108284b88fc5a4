[package]
name = "esm_message"
version = "0.1.0"
edition = "2021"
publish = false

[dependencies]
aes-gcm = "*"
rand = "*"
uuid = { version = "*", features = ["v4"] }
unicode-segmentation = "*"
chrono = "*"
message-io = "*"
