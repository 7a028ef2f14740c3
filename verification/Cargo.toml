[package]
name = "biasedrc"
version = "0.1.0"
edition = "2021"
publish = false

[dependencies]
allocator-api2 = "=0.4.0"
arbitrary-int = "=2.2.0"
arc-swap = "=1.9.3"
archery = "=1.2.3"
arrayvec = "0.7"
atomic = "=0.6.1"
boxcar = "=0.2.14"
bytemuck = { version = "=1.25.2", features = ["derive"] }
crossbeam-queue = "=0.3.14"
nounwind = "=0.1.7"
ptr_meta = "=0.3.2"
serde = "=1.0.229"
stable_deref_trait = "=1.2.1"
thiserror = "=2.0.21"
unsize = "=1.1.0"
