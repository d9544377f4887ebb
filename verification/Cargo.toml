[package]
name = "layout_damage"
version = "0.1.0"
edition = "2021"
publish = false

[dependencies]
app_units = "=0.7.8"
cssparser = "=0.38.0"
euclid = "=0.22.14"
selectors = "=0.41.0"
serde = { version = "=1.0.229", features = ["derive"] }
servo_arc = "=0.5.0"
stylo = { version = "=0.22.0", features = ["servo"] }
stylo_traits = { version = "=0.22.0", features = ["servo"] }
