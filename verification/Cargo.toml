[package]
name = "otaripper"
version = "0.1.0"
edition = "2021"
publish = false

[dependencies]
sha2 = "*"
hex = "*"
bzip2 = "*"
xz2 = { version = "*", features = ["static"] }
clap = { version = "*", features = ["derive"] }
zip = { version = "*", default-features = false, features = ["deflate"] }
chrono = "*"
ctrlc = "*"
rayon = "*"
anyhow = "*"
memmap2 = "*"
