[package]
name = "obsidian_graph"
version = "0.1.0"
edition = "2021"
publish = false

[dependencies]
eframe = { version = "0.22", default-features = false, features = ["glow"] }
egui = "0.22"
petgraph = "0.6"
rand = "0.8"
rand_distr = "0.4"
regex = "1"
serde = { version = "1", features = ["derive"] }
