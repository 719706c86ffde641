[package]
name = "lcd_terminal"
version = "0.1.0"
edition = "2021"
publish = false

[dependencies]
embedded-graphics = "0.8"
esp-idf-hal = "*"
esp-idf-svc = "*"
