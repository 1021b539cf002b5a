[package]
name = "backroll"
version = "0.4.0"
edition = "2021"

[dependencies]
async-channel = "=1.9.0"
async-net = "1.6"
bevy_app = "=0.9.1"
bevy_ecs = "=0.9.1"
bevy_log = "=0.9.1"
bevy-steamworks = "=0.6.0"
bevy_tasks = "=0.9.1"
bincode = "=1.3.3"
bytemuck = { version = "=1.25.2", features = ["min_const_generics"] }
futures = "0.3"
futures-timer = "3.0"
parking_lot = "0.12"
rand = "=0.8.8"
serde = { version = "1.0", features = ["derive"] }
steamworks = "=0.9.0"
thiserror = "1.0"
tracing = "0.1"
varinteger = "=1.0.6"
