[package]
name = "creature_links"
version = "0.1.0"
edition = "2021"
publish = false

[dependencies]
avian2d = { version = "=0.1.2", default-features = false, features = ["2d", "f32", "parry-f32"] }
bevy = { version = "=0.14.2", default-features = false, features = ["bevy_state"] }
bevy_turborand = "=0.9.0"
enum-iterator = "=2.3.0"
