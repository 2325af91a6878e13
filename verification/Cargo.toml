[package]
name = "linux2rest"
version = "0.1.0"
edition = "2021"
publish = false

[dependencies]
rmesg = { version = "=1.0.24", default-features = false, features = ["sync"] }
serde = { version = "=1.0.229", features = ["derive"] }
serde_json = "=1.0.151"
actix = "=0.10.0"
actix-web = "=3.3.3"
actix-web-actors = "=3.0.0"
structopt = "=0.3.26"
strum = "=0.24.1"
strum_macros = "=0.24.3"
anyhow = "=1.0.104"
log = "=0.4.34"
chrono = "=0.4.45"
sysinfo = "=0.28.4"
netstat2 = "=0.11.2"
pnet = "=0.33.0"
notify = "=4.0.18"
rppal = "=0.14.1"
serialport = { version = "4", default-features = false }
