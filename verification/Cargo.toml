[package]
name = "bazos"
version = "0.1.0"
edition = "2021"
publish = false

[dependencies]
x86_64 = "0.15"
spin = "0.9"
conquer-once = { version = "0.4", default-features = false }
crossbeam-queue = { version = "0.3", default-features = false, features = ["alloc"] }
futures-util = { version = "0.3", default-features = false, features = ["alloc"] }
pc-keyboard = "0.8"
volatile = "0.2"
lazy_static = { version = "1", features = ["spin_no_std"] }
bit_field = "0.10"
virtio-drivers = "0.9"
acpi = "5"
bootloader = { version = "0.9", features = ["map_physical_memory"] }
paste = "1"
