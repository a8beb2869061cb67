[package]
name = "templatr"
version = "0.1.0"
edition = "2021"
publish = false

[dependencies]
dirs = "*"
fs_extra = "*"
gix = "*"
regex = "*"
serde_json = "*"
thiserror = "*"
walkdir = "*"
