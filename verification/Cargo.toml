[package]
name = "index_scheduler"
version = "0.1.0"
edition = "2021"
publish = false

[dependencies]
roaring = "=0.10.12"
bumpalo = { version = "=3.20.3", features = ["collections"] }
rustc-hash = "=2.1.3"
time = "=0.3.55"
page_size = "=0.6.0"
uuid = "=1.29.0"
bumparaw-collections = "=0.1.7"
slice-group-by = "=0.3.1"
grenad = "=0.4.7"
