[package]
name = "thread_sensor"
version = "0.1.0"
edition = "2021"
publish = false

[dependencies]
aes = "=0.8.4"
ccm = "=0.5.0"
cortex-m-rt = "=0.7.7"
defmt = "=1.2.0"
defmt-rtt = "=1.3.1"
embassy-executor = { version = "=0.10.0", features = ["platform-spin", "executor-thread"] }
embassy-nrf = { version = "=0.11.0", features = ["nrf52840", "time-driver-rtc1", "gpiote"] }
embassy-time = "=0.5.1"
embedded-hal-async = "=1.0.0"
heapless = "=0.8.0"
hmac = "=0.12.1"
panic-probe = "=1.0.0"
sha2 = "=0.10.9"
smoltcp = { version = "=0.12.0", default-features = false, features = ["medium-ieee802154", "proto-sixlowpan", "socket-udp"] }
static_cell = "=2.1.1"
