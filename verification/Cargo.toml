[package]
name = "udp_mqtt_bridge"
version = "0.1.0"
edition = "2021"
publish = false

[dependencies]
confy = "=2.0.0"
libc = "=0.2.191"
log = "=0.4.34"
log4rs = { version = "=1.4.0", default-features = false, features = ["rolling_file_appender", "compound_policy", "size_trigger", "fixed_window_roller", "pattern_encoder", "threshold_filter"] }
paho-mqtt = { version = "=0.14.0", default-features = false }
serde = { version = "=1.0.229", features = ["derive"] }
