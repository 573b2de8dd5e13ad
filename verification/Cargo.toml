[package]
name = "rtdriver"
version = "0.1.0"
edition = "2021"
publish = false

[dependencies]
bytemuck = { version = "=1.25.2", features = ["extern_crate_alloc", "min_const_generics"] }
num = "=0.4.3"
tikv-jemallocator = "=0.7.0"
tqdm = "=0.8.1"
