[package]
name = "dc34_badge"
version = "0.1.0"
edition = "2021"
publish = false

[dependencies]
heapless = "=0.8.0"
arbitrary-int = "1.3.0"
log = "0.4"
xous = "0.9.71"
xous-names = "0.9.36"
xous-api-ticktimer = "0.9.71"
bao1x-api = "0.1.4"
