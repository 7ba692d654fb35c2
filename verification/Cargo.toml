[package]
name = "midi_daw"
version = "0.1.0"
edition = "2021"
publish = false

[dependencies]
midi-msg = "=0.9.0"
crossbeam = "=0.8.5"
xdg = "=3.0.0"
