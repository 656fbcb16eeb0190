[package]
name = "agnostos"
version = "0.1.0"
edition = "2021"
publish = false

[dependencies]
uefi = { version = "=0.41.0", features = ["alloc"] }
x86_64 = { version = "=0.15.5", default-features = false, features = ["instructions"] }
spin = "=0.12.3"
pc-keyboard = "=0.9.0"
ringbuf = "=0.6.0"
static_cell = "=2.1.1"
linked_list_allocator = "=0.10.6"
noto-sans-mono-bitmap = { version = "=0.4.0", features = ["raster_heights_all"] }
