[package]
name = "box_game"
version = "0.1.0"
edition = "2021"
publish = false

[dependencies]
bincode = "=1.3.3"
bitfield-rle = "=0.2.0"
ggrs = "=0.4.4"
macroquad = "=0.3.26"
