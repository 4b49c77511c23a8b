[package]
name = "lagoon"
version = "0.1.0"
edition = "2021"
publish = false

[dependencies]
bit-vec = "=0.10.1"
fasthash = "=0.4.0"
md5 = "=0.8.1"
jsonrpc-core = "=18.0.0"
jsonrpc-derive = "=18.0.0"
jsonrpc-tcp-server = "=18.0.0"
jsonrpc-lite = "=0.7.0"
serde_json = "=1.0.154"
log = "=0.4.34"
env_logger = "=0.11.11"
structopt = "=0.3.26"
rusoto_core = "=0.48.0"
rusoto_s3 = "=0.48.0"
sonic_client = "=0.1.2"
