[package]
name = "crsf2pwm"
version = "0.1.0"
edition = "2021"
publish = false

[dependencies]
fixed = "*"
crsf = "*"
smart-leds = "*"
heapless = "*"
embassy-time = "*"
embassy-sync = "*"
embassy-executor = "*"
embassy-rp = { version = "*", features = ["rp2040", "time-driver"] }
defmt = "*"
defmt-rtt = "*"
panic-probe = "*"
pio = "*"
