[package]
name = "anyrender_serialize"
version = "0.1.0"
edition = "2021"
publish = false

[dependencies]
sha2 = "=0.11.0"
zip = { version = "=8.6.0", default-features = false, features = ["deflate"] }
image = { version = "=0.25.10", default-features = false, features = ["png"] }
ttf2woff2 = "=0.13.3"
wuff = "=0.2.9"

[dev-dependencies]
serde_json = "=1.0.151"
