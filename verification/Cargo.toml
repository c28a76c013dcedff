[package]
name = "exactulator"
version = "0.1.0"
edition = "2021"
publish = false

[dependencies]
num = "=0.4.3"
big-rational-str = "=0.1.7"
iced = { version = "=0.14.0", default-features = false, features = ["tiny-skia", "x11", "thread-pool"] }
