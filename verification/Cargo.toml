[package]
name = "mini_http"
version = "0.1.0"
edition = "2021"
publish = false

[dependencies]
http = "0.1"
httparse = "1"
slab = "0.4"
num_cpus = "1"
mio = "0.6"
threadpool = "1"
log = "0.3"
env_logger = "0.4"
error-chain = "0.12"
