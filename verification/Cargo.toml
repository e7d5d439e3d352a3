[package]
name = "i3lockr"
version = "0.1.0"
edition = "2021"
publish = false

[dependencies]
structopt = "=0.2.18"
xcb = { version = "=0.9.0", features = ["randr"] }
scrap = "=0.5.0"
imagefmt = "=4.0.0"
