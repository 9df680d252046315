[package]
name = "mizu_render"
version = "0.1.0"
edition = "2021"
publish = false

[dependencies]
accesskit = "=0.13.0"
accesskit_winit = { version = "=0.19.0", default-features = false, features = ["rwh_06"] }
ego-tree = "=0.11.1"
image = "=0.25.10"
parley = { version = "0.8", default-features = false, features = ["std"] }
rustc-hash = "=2.1.3"
taffy = "=0.5.2"
vello = { version = "=0.2.1", default-features = false }
winit = { version = "=0.29.15", default-features = false, features = ["rwh_06", "x11"] }

[dev-dependencies]
accesskit_consumer = "=0.18.0"
