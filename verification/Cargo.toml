[package]
name = "tower_defense"
version = "0.1.0"
edition = "2021"
publish = false

[dependencies]
pathfinding = "*"
rand = "*"
