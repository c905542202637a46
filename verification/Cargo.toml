[package]
name = "wifi_creds"
version = "0.1.0"
edition = "2021"
publish = false

[dependencies]
android_logger = "=0.15.1"
anyhow = "=1.0.104"
jni = "=0.21.1"
log = "=0.4.34"
once_cell = "=1.21.4"
repose-core = "=0.17.7"
repose-ui = "=0.17.7"
winit = { version = "=0.30.13", features = ["android-native-activity"] }
