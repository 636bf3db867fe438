[package]
name = "js_object_parser"
version = "0.1.0"
edition = "2021"
publish = false

[dependencies]
biome_rowan = "=0.7.0"
criterion = { version = "=0.8.2", default-features = false }
