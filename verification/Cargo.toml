[package]
name = "gmod_buttplug"
version = "0.2.0"
edition = "2021"
publish = false

[dependencies]
tokio = { version = "=1.54.1", features = ["rt-multi-thread", "time"] }
tracing-subscriber = { version = "=0.3.23", features = ["env-filter"] }
serde_json = "=1.0.154"
ureq = { version = "=2.12.1", features = ["json"] }
crossbeam-channel = "=0.5.17"
futures = "=0.3.34"
gmod = { version = "=17.0.1", features = ["gmcl"] }
buttplug_client = "=10.0.3"
buttplug_client_in_process = "=10.0.4"
buttplug_server = "=10.0.4"
buttplug_server_device_config = "=10.1.1"
buttplug_server_hwmgr_btleplug = "=10.0.4"
buttplug_server_hwmgr_hid = "=10.0.4"
buttplug_server_hwmgr_lovense_connect = "=10.0.4"
buttplug_server_hwmgr_lovense_dongle = "=10.0.4"
buttplug_server_hwmgr_serial = "=10.0.4"
buttplug_server_hwmgr_xinput = "=10.0.4"
