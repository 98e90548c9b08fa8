[package]
name = "pyro"
version = "0.1.0"
edition = "2021"
publish = false

[dependencies]
base64 = "0.22"
sha2 = "0.10"
serde = { version = "1", features = ["derive"] }
serde_json = "1"
ureq = "2"
flate2 = "1"
xz2 = "0.1"
zstd = "0.13"
bzip2 = "0.4"
zip = "2"
libc = "0.2"
plist = "1"
notify-rust = "4"
rfd = "0.14"
