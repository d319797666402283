[package]
name = "ak_os_kernel"
version = "0.1.0"
edition = "2021"
publish = false

[dependencies]
x86_64 = { version = "0.14", default-features = false, features = ["instructions"] }
crossbeam-queue = "0.3"
crossbeam-utils = "0.8"
futures-util = "0.3"
lock_api = "0.4"
bootloader_api = "0.11"
conquer-once = "0.4"
heapless = "0.7"
linked_list_allocator = "0.10"
acpi = "4"
log = "0.4"
