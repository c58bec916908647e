[package]
name = "ayachi_door_access"
version = "0.1.0"
edition = "2021"
publish = false

[dependencies]
base64 = "=0.22.1"
pbkdf2 = { version = "=0.12.2", features = ["sha2"] }
sha2 = { version = "=0.10.9", default-features = false }
serde = { version = "=1.0.229", features = ["derive"] }
embedded-storage = "=0.3.2"
esp-bootloader-esp-idf = "=0.6.0"
esp-storage = "=0.10.0"
esp-hal = "=1.1.2"
esp-radio = "=0.18.0"
esp-rtos = "=0.3.0"
esp-alloc = "=0.11.0"
esp-backtrace = "=0.20.0"
esp-println = "=0.18.0"
embassy-executor = "=0.10.0"
embassy-futures = "=0.1.2"
embassy-net = "=0.9.1"
embassy-sync = "=0.8.0"
embassy-time = "=0.5.1"
edge-mdns = "=0.8.0"
edge-nal = "=0.7.0"
edge-nal-embassy = "=0.9.0"
picoserve = "=0.20.1"
defmt = "=1.2.0"
static_cell = "*"
