[package]
name = "symphony_model"
version = "0.1.0"
edition = "2021"
publish = false

[dependencies]
indexmap = "1"
log = "0.4"
futures = "0.3"
once_cell = "1"
gtk4 = "0.4"
libadwaita = "0.1"
