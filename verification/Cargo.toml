[package]
name = "vaultwyr"
version = "0.1.0"
edition = "2021"
publish = false

[dependencies]
aes-gcm = "0.10"
sha2 = "0.10"
serde = { version = "1", features = ["derive"] }
serde_json = "1"
bincode = "1"
directories = "5"
strum = "0.26"
strum_macros = "0.26"
