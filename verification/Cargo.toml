[package]
name = "passman"
version = "0.1.0"
edition = "2021"
publish = false

[dependencies]
aes-gcm-siv = "0.11"
argon2 = "0.5"
base64 = "0.22"
chrono = "0.4"
rand = "0.9"
zeroize = "1"
secrecy = "0.10"
serde = { version = "1", features = ["derive"] }
serde_json = "1"
directories = "*"
colored = "*"
rpassword = "*"
ctrlc = "*"
arboard = { version = "*", default-features = false }
passwords = "*"
