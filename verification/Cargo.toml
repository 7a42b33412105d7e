[package]
name = "memlcd"
version = "0.1.0"
edition = "2021"
publish = false

[dependencies]
cortex-m = "=0.7.10"
defmt = "=1.2.0"
defmt-rtt = "=1.3.1"
embassy-executor = "=0.9.1"
embassy-sync = "=0.8.0"
embassy-time = "=0.5.1"
embedded-graphics = "=0.8.2"
embedded-hal = "=1.0.0"
embedded-hal-async = "=1.0.0"
heapless = "=0.9.3"
panic-probe = "=1.0.0"
