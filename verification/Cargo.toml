[package]
name = "gallerynet"
version = "0.1.0"
edition = "2021"
publish = false

[dependencies]
hmac = "0.12"
sha2 = "0.10"
hex = "0.4"
base64 = "0.22"
chrono = "0.4"
image = { version = "0.25", default-features = false, features = ["jpeg", "png", "gif", "webp", "bmp", "tiff"] }
image_hasher = "*"
uuid = { version = "1", features = ["v4"] }
rand = "0.8"
serde = { version = "1", features = ["derive"] }
serde_json = "1"
thiserror = "*"
tokio = { version = "1", features = ["full"] }
tokio-util = { version = "0.7", features = ["compat", "io"] }
axum = { version = "0.8", features = ["multipart"] }
tower-http = { version = "*", features = ["fs", "cors"] }
tracing = "0.1"
tracing-subscriber = { version = "0.3", features = ["env-filter"] }
rusqlite = { version = "*", features = ["bundled"] }
sqlite-vec = "*"
async_zip = { version = "*", features = ["tokio"] }
mime_guess = "2"
reqwest = { version = "*", default-features = false, features = ["multipart"] }
libc = "0.2"
ort = "2.0.0-rc.10"
ndarray = "0.15"
linfa = "0.7"
linfa-svm = "0.7"
rayon = "1"
kamadak-exif = "*"
