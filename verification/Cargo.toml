[package]
name = "ctrl"
version = "0.1.0"
edition = "2021"
publish = false

[dependencies]
num = "=0.4.3"
byteorder = "=1.5.0"
isomorphism = "=0.1.3"
serde = { version = "=1.0.229", features = ["derive"] }
serde_yaml = "=0.9.34"
structopt = "=0.3.26"
env_logger = "=0.11.11"
fuse_mt = "=0.6.4"
i2cdev = "=0.6.2"
memmap = "=0.7.0"
lazy_static = "=1.5.1"

[dev-dependencies]
regex = "=1.13.1"
