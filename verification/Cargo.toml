[package]
name = "photo_uploader"
version = "0.1.0"
edition = "2021"
publish = false

[dependencies]
image = { version = "=0.25.10", default-features = false, features = ["bmp", "dds", "exr", "ff", "gif", "hdr", "ico", "jpeg", "png", "pnm", "qoi", "tga", "tiff", "webp"] }
kamadak-exif = "=0.6.1"
rand = "=0.8.8"
dirs = "=5.0.1"
anyhow = "=1.0.104"
clap = { version = "=4.6.7", features = ["derive"] }
tokio = { version = "=1.54.1", features = ["macros", "rt-multi-thread"] }
aws-config = { version = "=1.13.0", features = ["behavior-version-latest"] }
aws-sdk-s3 = "=1.157.0"
