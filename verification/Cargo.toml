[package]
name = "wiznet_rs"
version = "0.1.0"
edition = "2021"
publish = false

[dependencies]
cortex-m = "0.7"
cortex-m-rt = "0.7"
embedded-dma = "0.2"
embedded-hal = "1"
nb = "1"
static_cell = "2"
stm32f1xx-hal = { version = "0.11", features = ["stm32f103", "medium"] }
