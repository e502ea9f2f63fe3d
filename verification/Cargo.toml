[package]
name = "refineid"
version = "0.1.0"
edition = "2021"
publish = false

[dependencies]
aes = "*"
cbc = { version = "*", features = ["alloc"] }
cmac = "*"
const-oid = "*"
crypto-bigint = "*"
getrandom = "*"
hmac = "*"
pcsc = "*"
sha2 = "*"
spki = { version = "*", features = ["alloc"] }
subtle = "*"
x509-cert = "*"
zeroize = "*"
