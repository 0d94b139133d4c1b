[package]
name = "game_of_life"
version = "0.1.0"
edition = "2021"
publish = false

[dependencies]
bevy = { version = "=0.5.0", default-features = false, features = ["render", "bevy_wgpu", "bevy_winit", "x11"] }
# bevy's derive macros need syn's "full" feature and do not ask for it;
# darling, which bevy's tree holds already, does.
darling = "=0.10.2"
