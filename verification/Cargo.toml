[package]
name = "moonshine_check"
version = "0.1.0"
edition = "2021"
publish = false

[dependencies]
bevy_app = { version = "=0.14.2", default-features = false }
bevy_ecs = { version = "=0.14.2", default-features = false }
bevy_hierarchy = { version = "=0.14.2", default-features = false }
bevy_utils = { version = "=0.14.2", default-features = false }
moonshine-kind = "=0.2.0"
moonshine-save = "=0.3.9"
moonshine-util = "=0.2.5"
