[package]
name = "serial_bridge"
version = "0.1.0"
edition = "2021"
publish = false

[dependencies]
eds = { version = "=0.5.1", features = ["alloc"] }
fixed-queue = "=0.5.2"
task-stream = "=0.3.8"
spin = "=0.12.3"
log = "=0.4.34"
nb = "=1.1.0"
embedded-hal = "=0.2.7"
cortex-m = "=0.7.9"
cortex-m-rt = "=0.7.7"
alloc-cortex-m = "=0.4.4"
stm32f1xx-hal = { version = "=0.11.0", features = ["stm32f103"] }
