[package]
name = "sysmon_panel"
version = "0.1.0"
edition = "2021"
publish = false

[dependencies]
bytesize = "2"
ab_glyph = "0.2"
ctrlc = "3"
embedded-graphics = "0.8"
embedded-hal = "1"
linux-embedded-hal = { version = "0.4", default-features = false, features = ["gpio_cdev", "i2c"] }
ssd1306 = "*"
getifaddrs = "*"
