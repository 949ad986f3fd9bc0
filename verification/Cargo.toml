[package]
name = "plugins_rs"
version = "0.1.0"
edition = "2021"
publish = false

[dependencies]
url = "2"
mime_guess2 = "*"
deno_ast = { version = "*", features = ["transpiling"] }
zip = { version = "*", default-features = false, features = ["deflate"] }
tar = "0.4"
flate2 = "1"
xz2 = "0.1"
sevenz-rust2 = "*"
serde = { version = "1", features = ["derive"] }
serde_json = "1"
include_dir = "0.7"
walkdir = "2"
tempfile = "3"
nanoid = "0.4"
uuid = { version = "1", features = ["v4"] }
log = "0.4"
parking_lot = "0.12"
deno_core = "*"
deno_error = "*"
tokio = { version = "1", features = ["rt"] }
