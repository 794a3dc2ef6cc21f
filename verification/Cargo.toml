[package]
name = "simdnbt"
version = "0.1.0"
edition = "2021"
publish = false

[dependencies]
byteorder = "=1.5.0"
mutf8 = "=0.4.1"
serde = "=1.0.229"
thiserror = "=1.0.69"
