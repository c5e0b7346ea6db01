[package]
name = "zswalc"
version = "0.1.0"
edition = "2021"
publish = false

[dependencies]
chrono = "0.4"
clap = "2"
futures = "0.3"
htmlescape = "0.3.1"
http = "0.2"
hyper = "0.13"
indoc = "1"
os_str_bytes = "2"
r2d2 = "0.8"
r2d2_sqlite = "0.16"
rusqlite = "0.23"
tera = "1"
tokio = { version = "0.2", features = ["macros", "rt-threaded"] }
url = "2"
