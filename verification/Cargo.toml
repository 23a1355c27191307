[package]
name = "hermit"
version = "0.1.0"
edition = "2021"
publish = false

[dependencies]
aarch64-cpu = "*"
ahash = { version = "0.8", default-features = false }
align-address = "*"
anstyle = { version = "1", default-features = false }
arm-gic = "0.8"
async-lock = { version = "3", default-features = false }
crossbeam-utils = { version = "0.8", default-features = false }
elf-symbols = "*"
fdt = "*"
free-list = "*"
hashbrown = { version = "0.16", default-features = false }
hermit-entry = "*"
hermit-sync = "*"
log = "0.4"
memory_addresses = "*"
take-static = "*"
