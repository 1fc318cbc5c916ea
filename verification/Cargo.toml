[package]
name = "qfiletrans"
version = "0.1.0"
edition = "2021"
publish = false

[dependencies]
byteorder = "1"
rand = "0.7"
anyhow = "1"
log = "0.4"
env_logger = "0.8"
async-std = "1"
futures = "0.3"
serde = { version = "1", features = ["derive"] }
structopt = "0.3"
thread-priority = "0.2"
rayon = "1"
lazy_static = "1"
actix-web = "3"
actix-service = "1"
actix-rt = "1"
actix-multipart = "0.3"
sanitize-filename = "0.3"
r2d2 = "0.8"
r2d2_sqlite = "0.17"
rusqlite = { version = "0.24", features = ["bundled"] }
