[package]
name = "deej_oled"
version = "0.1.0"
edition = "2021"
publish = false

[dependencies]
assign-resources = "=0.5.0"
bumpalo = { version = "=3.20.3", default-features = false }
defmt-rtt = "=1.3.1"
embassy-executor = { version = "=0.9.1", features = ["arch-std", "executor-thread"] }
embassy-sync = "=0.8.0"
embassy-time = "=0.5.1"
embassy-usb = "=0.6.0"
embassy-usb-logger = "=0.6.0"
embedded-graphics = "=0.8.2"
embedded-hal-bus = "=0.3.0"
heapless = "=0.8.0"
libm = "=0.2.16"
log = "=0.4.34"
panic-probe = "=1.0.0"
ssd1322_rs = "=0.3.1"
static_cell = "=2.1.1"
tinybmp = "=0.7.0"
