[package]
name = "keyscan"
version = "0.1.0"
edition = "2021"
publish = false

[dependencies]
cortex-m = "=0.7.10"
cortex-m-rtic = "=1.1.4"
defmt-rtt = "=0.4.2"
display-interface-i2c = "=0.4.0"
embedded-graphics = "=0.7.1"
embedded-hal = "=0.2.7"
fugit = "=0.3.9"
keyberon = "=0.1.1"
panic-probe = "=0.3.2"
rp2040-boot2 = "=0.2.1"
rp2040-hal = { version = "=0.8.2", features = ["rt", "critical-section-impl"] }
smart-leds = "=0.3.0"
ssd1306 = "=0.7.1"
usb-device = "=0.2.9"
ws2812-pio = "=0.6.0"
