[package]
name = "tmp102_reporter"
version = "0.1.0"
edition = "2021"
publish = false

[dependencies]
heapless = "0.8"
nb = "1"
cortex-m-rt = "0.7"
panic-halt = "0.2"
stm32l4xx-hal = { version = "0.6", features = ["stm32l4x6"] }
